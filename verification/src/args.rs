//! Reading the command line: which token is the URL, which are flags, and
//! what the flags ask for.

use vstd::prelude::*;
use vstd::string::*;
use crate::address::{is_valid_url, parses_as_url};
use crate::request::{line_views, DEFAULT_METHOD};
use crate::scan::str_eq;

verus! {

/// What a token of the command line is taken for.
#[derive(Debug, Clone, Copy, PartialEq, Eq, Structural)]
pub enum TokenKind {
    /// An absolute URL.
    Url,
    /// `-H` or `--header`: the next token is a header line.
    Header,
    /// `-d` or `--data`: the next token is the body.
    Data,
    /// `-X` or `--request`: the next token is the method.
    Method,
    /// `-h` or `--help`.
    Help,
    /// `-v` or `--verbose`.
    Verbose,
    /// Anything else.
    Unknown,
}

impl TokenKind {
    /// Whether a token of this kind is followed by its value.
    pub open spec fn takes_value(self) -> bool {
        self == TokenKind::Header || self == TokenKind::Data || self == TokenKind::Method
    }
}

/// The kind of a token. A token that is a URL is taken for one whatever it
/// spells; the others go by their spelling.
pub open spec fn token_kind(token: Seq<char>) -> TokenKind {
    if parses_as_url(token) {
        TokenKind::Url
    } else if token == "-H"@ || token == "--header"@ {
        TokenKind::Header
    } else if token == "-d"@ || token == "--data"@ {
        TokenKind::Data
    } else if token == "-X"@ || token == "--request"@ {
        TokenKind::Method
    } else if token == "-h"@ || token == "--help"@ {
        TokenKind::Help
    } else if token == "-v"@ || token == "--verbose"@ {
        TokenKind::Verbose
    } else {
        TokenKind::Unknown
    }
}

/// Tells what a token of the command line is.
pub fn classify(token: &str) -> (kind: TokenKind)
    ensures
        kind == token_kind(token@),
{
    if is_valid_url(token) {
        TokenKind::Url
    } else if str_eq(token, "-H") || str_eq(token, "--header") {
        TokenKind::Header
    } else if str_eq(token, "-d") || str_eq(token, "--data") {
        TokenKind::Data
    } else if str_eq(token, "-X") || str_eq(token, "--request") {
        TokenKind::Method
    } else if str_eq(token, "-h") || str_eq(token, "--help") {
        TokenKind::Help
    } else if str_eq(token, "-v") || str_eq(token, "--verbose") {
        TokenKind::Verbose
    } else {
        TokenKind::Unknown
    }
}

/// One thing that the command line asks for.
#[derive(Debug, Clone, PartialEq, Eq)]
pub enum Flag {
    /// A header line, as the caller wrote it.
    Header(String),
    /// The method of the request.
    Method(String),
    /// The body of the request.
    Data(String),
    /// The URL to request.
    Url(String),
    /// Echo the request and the response headers.
    Verbose,
    /// Show the usage.
    Help,
}

/// A flag as the contracts see it: the same variants over character sequences.
pub enum FlagView {
    Header(Seq<char>),
    Method(Seq<char>),
    Data(Seq<char>),
    Url(Seq<char>),
    Verbose,
    Help,
}

impl View for Flag {
    type V = FlagView;

    open spec fn view(&self) -> FlagView {
        match self {
            Flag::Header(line) => FlagView::Header(line@),
            Flag::Method(method) => FlagView::Method(method@),
            Flag::Data(data) => FlagView::Data(data@),
            Flag::Url(url) => FlagView::Url(url@),
            Flag::Verbose => FlagView::Verbose,
            Flag::Help => FlagView::Help,
        }
    }
}

impl FlagView {
    /// The kind of token that gives this flag.
    pub open spec fn kind(self) -> TokenKind {
        match self {
            FlagView::Header(_) => TokenKind::Header,
            FlagView::Method(_) => TokenKind::Method,
            FlagView::Data(_) => TokenKind::Data,
            FlagView::Url(_) => TokenKind::Url,
            FlagView::Verbose => TokenKind::Verbose,
            FlagView::Help => TokenKind::Help,
        }
    }

    /// The text that this flag carries; empty for a flag that carries none.
    pub open spec fn text(self) -> Seq<char> {
        match self {
            FlagView::Header(line) => line,
            FlagView::Method(method) => method,
            FlagView::Data(data) => data,
            FlagView::Url(url) => url,
            FlagView::Verbose => Seq::empty(),
            FlagView::Help => Seq::empty(),
        }
    }
}

impl Flag {
    /// The kind of token that gives this flag.
    pub fn kind(&self) -> (kind: TokenKind)
        ensures
            kind == self@.kind(),
    {
        match self {
            Flag::Header(_) => TokenKind::Header,
            Flag::Method(_) => TokenKind::Method,
            Flag::Data(_) => TokenKind::Data,
            Flag::Url(_) => TokenKind::Url,
            Flag::Verbose => TokenKind::Verbose,
            Flag::Help => TokenKind::Help,
        }
    }

    /// The text that this flag carries; empty for a flag that carries none.
    pub fn text(&self) -> (text: &str)
        ensures
            text@ == self@.text(),
    {
        proof {
            reveal_strlit("");
        }
        assert(""@ =~= Seq::<char>::empty());
        match self {
            Flag::Header(line) => line.as_str(),
            Flag::Method(method) => method.as_str(),
            Flag::Data(data) => data.as_str(),
            Flag::Url(url) => url.as_str(),
            Flag::Verbose => "",
            Flag::Help => "",
        }
    }
}

/// The flag that a token of kind `kind` stands for. `text` is the token
/// itself for a URL and the token behind it for a flag that takes a value.
pub open spec fn flag_of(kind: TokenKind, text: Seq<char>) -> FlagView
    recommends
        kind != TokenKind::Unknown,
{
    match kind {
        TokenKind::Url => FlagView::Url(text),
        TokenKind::Header => FlagView::Header(text),
        TokenKind::Data => FlagView::Data(text),
        TokenKind::Method => FlagView::Method(text),
        TokenKind::Verbose => FlagView::Verbose,
        _ => FlagView::Help,
    }
}

fn make_flag(kind: TokenKind, text: String) -> (flag: Flag)
    requires
        kind != TokenKind::Unknown,
    ensures
        flag@ == flag_of(kind, text@),
{
    match kind {
        TokenKind::Url => Flag::Url(text),
        TokenKind::Header => Flag::Header(text),
        TokenKind::Data => Flag::Data(text),
        TokenKind::Method => Flag::Method(text),
        TokenKind::Verbose => Flag::Verbose,
        _ => Flag::Help,
    }
}

/// The views of a list of strings.
pub open spec fn texts(strings: Seq<String>) -> Seq<Seq<char>> {
    strings.map_values(|s: String| s@)
}

/// The views of a list of flags.
pub open spec fn flag_views(flags: Seq<Flag>) -> Seq<FlagView> {
    flags.map_values(|flag: Flag| flag@)
}

/// What a command line was read as.
#[derive(Debug, Clone, PartialEq, Eq)]
pub struct Collected {
    /// The flags, in the order of the command line.
    pub flags: Vec<Flag>,
    /// The tokens that are neither a URL nor a flag, in order.
    pub unknown: Vec<String>,
    /// The flag at the end of the command line whose value is missing, if
    /// there is one.
    pub missing_value: Option<String>,
}

/// A reading of a command line as the contracts see it.
pub struct CollectedView {
    pub flags: Seq<FlagView>,
    pub unknown: Seq<Seq<char>>,
    pub missing_value: Option<Seq<char>>,
}

impl View for Collected {
    type V = CollectedView;

    open spec fn view(&self) -> CollectedView {
        CollectedView {
            flags: flag_views(self.flags@),
            unknown: texts(self.unknown@),
            missing_value: match self.missing_value {
                Some(flag) => Some(flag@),
                None => None,
            },
        }
    }
}

/// `flags` and `unknown`, followed by what `rest` holds.
pub open spec fn followed_by(
    flags: Seq<FlagView>,
    unknown: Seq<Seq<char>>,
    rest: CollectedView,
) -> CollectedView {
    CollectedView {
        flags: flags + rest.flags,
        unknown: unknown + rest.unknown,
        missing_value: rest.missing_value,
    }
}

/// The reading of the tokens from index `start` on.
///
/// A URL and a flag without a value take one token each. A flag with a value
/// takes two, whatever the second one spells. A token that is neither is put
/// aside as unknown. A flag with a value that stands last has no value: it is
/// reported, and is no flag of the reading.
pub open spec fn collect_from(tokens: Seq<Seq<char>>, start: int) -> CollectedView
    decreases tokens.len() - start,
{
    if start < 0 || start >= tokens.len() {
        CollectedView { flags: Seq::empty(), unknown: Seq::empty(), missing_value: None }
    } else {
        let token = tokens[start];
        let kind = token_kind(token);
        if kind == TokenKind::Unknown {
            followed_by(Seq::empty(), seq![token], collect_from(tokens, start + 1))
        } else if !kind.takes_value() {
            followed_by(seq![flag_of(kind, token)], Seq::empty(), collect_from(tokens, start + 1))
        } else if start + 1 < tokens.len() {
            followed_by(
                seq![flag_of(kind, tokens[start + 1])],
                Seq::empty(),
                collect_from(tokens, start + 2),
            )
        } else {
            CollectedView {
                flags: Seq::empty(),
                unknown: Seq::empty(),
                missing_value: Some(token),
            }
        }
    }
}

/// Reads the tokens of a command line, the program's name left out.
///
/// The reading stops at a flag whose value is missing; what was read before
/// it is still handed back.
pub fn collect_flags(args: &Vec<String>) -> (collected: Collected)
    ensures
        collected@ == collect_from(texts(args@), 0),
{
    let ghost tokens = texts(args@);
    let mut flags: Vec<Flag> = Vec::new();
    let mut unknown: Vec<String> = Vec::new();
    let mut i: usize = 0;
    proof {
        let rest = collect_from(tokens, 0);
        assert(flag_views(flags@) + rest.flags =~= rest.flags);
        assert(texts(unknown@) + rest.unknown =~= rest.unknown);
    }
    while i < args.len()
        invariant
            i <= args@.len(),
            tokens == texts(args@),
            collect_from(tokens, 0) == followed_by(
                flag_views(flags@),
                texts(unknown@),
                collect_from(tokens, i as int),
            ),
        decreases args@.len() - i,
    {
        let ghost old_flags = flag_views(flags@);
        let ghost old_unknown = texts(unknown@);
        let kind = classify(args[i].as_str());
        if kind == TokenKind::Unknown {
            unknown.push(args[i].clone());
            proof {
                let rest = collect_from(tokens, i + 1);
                assert(texts(unknown@) =~= old_unknown.push(tokens[i as int]));
                assert(texts(unknown@) + rest.unknown =~= old_unknown + (seq![tokens[i as int]]
                    + rest.unknown));
                assert(old_flags + rest.flags =~= old_flags + (Seq::empty() + rest.flags));
            }
            i += 1;
        } else if kind == TokenKind::Header || kind == TokenKind::Data || kind
            == TokenKind::Method {
            if i + 1 < args.len() {
                let flag = make_flag(kind, args[i + 1].clone());
                flags.push(flag);
                proof {
                    let rest = collect_from(tokens, i + 2);
                    assert(flag_views(flags@) =~= old_flags.push(flag@));
                    assert(flag_views(flags@) + rest.flags =~= old_flags + (seq![flag@]
                        + rest.flags));
                    assert(old_unknown + rest.unknown =~= old_unknown + (Seq::empty()
                        + rest.unknown));
                }
                i += 2;
            } else {
                let missing = args[i].clone();
                proof {
                    assert(old_flags + Seq::empty() =~= old_flags);
                    assert(old_unknown + Seq::empty() =~= old_unknown);
                }
                return Collected { flags, unknown, missing_value: Some(missing) };
            }
        } else {
            let flag = make_flag(kind, args[i].clone());
            flags.push(flag);
            proof {
                let rest = collect_from(tokens, i + 1);
                assert(flag_views(flags@) =~= old_flags.push(flag@));
                assert(flag_views(flags@) + rest.flags =~= old_flags + (seq![flag@] + rest.flags));
                assert(old_unknown + rest.unknown =~= old_unknown + (Seq::empty()
                    + rest.unknown));
            }
            i += 1;
        }
    }
    proof {
        assert(flag_views(flags@) + Seq::empty() =~= flag_views(flags@));
        assert(texts(unknown@) + Seq::empty() =~= texts(unknown@));
    }
    Collected { flags, unknown, missing_value: None }
}

/// The texts of the flags of kind `kind`, in their order.
pub open spec fn values_of(flags: Seq<FlagView>, kind: TokenKind) -> Seq<Seq<char>>
    decreases flags.len(),
{
    if flags.len() == 0 {
        Seq::empty()
    } else {
        let before = values_of(flags.drop_last(), kind);
        if flags.last().kind() == kind {
            before.push(flags.last().text())
        } else {
            before
        }
    }
}

/// The text of the first flag of kind `kind`, if there is such a flag.
pub open spec fn first_of(flags: Seq<FlagView>, kind: TokenKind) -> Option<Seq<char>> {
    let all = values_of(flags, kind);
    if all.len() > 0 {
        Some(all[0])
    } else {
        None
    }
}

/// Whether a flag of kind `kind` is among `flags`.
pub open spec fn has_kind(flags: Seq<FlagView>, kind: TokenKind) -> bool {
    exists|i: int| 0 <= i < flags.len() && (#[trigger] flags[i]).kind() == kind
}

/// The values of the first flags are the first of the values.
pub proof fn lemma_values_of_prefix(flags: Seq<FlagView>, kind: TokenKind, n: int)
    requires
        0 <= n <= flags.len(),
    ensures
        values_of(flags.subrange(0, n), kind).is_prefix_of(values_of(flags, kind)),
    decreases flags.len(),
{
    if n == flags.len() {
        assert(flags.subrange(0, n) =~= flags);
    } else {
        lemma_values_of_prefix(flags.drop_last(), kind, n);
        assert(flags.drop_last().subrange(0, n) =~= flags.subrange(0, n));
    }
}

/// A flag of the kind is among the flags just when the kind has a value.
pub proof fn lemma_values_of_has_kind(flags: Seq<FlagView>, kind: TokenKind)
    ensures
        has_kind(flags, kind) <==> values_of(flags, kind).len() > 0,
    decreases flags.len(),
{
    if flags.len() > 0 {
        let before = flags.drop_last();
        lemma_values_of_has_kind(before, kind);
        if has_kind(flags, kind) && flags.last().kind() != kind {
            let i = choose|i: int| 0 <= i < flags.len() && (#[trigger] flags[i]).kind() == kind;
            assert(before[i].kind() == kind);
        }
        if has_kind(before, kind) {
            let i = choose|i: int| 0 <= i < before.len() && (#[trigger] before[i]).kind() == kind;
            assert(flags[i].kind() == kind);
        }
        if flags.last().kind() == kind {
            assert(flags[flags.len() - 1].kind() == kind);
        }
    }
}

/// The text of the first flag of kind `kind`.
pub fn first_value<'a>(flags: &'a Vec<Flag>, kind: TokenKind) -> (value: Option<&'a str>)
    ensures
        value is Some <==> has_kind(flag_views(flags@), kind),
        match value {
            Some(text) => first_of(flag_views(flags@), kind) == Some(text@),
            None => first_of(flag_views(flags@), kind) is None,
        },
{
    let ghost views = flag_views(flags@);
    let mut i: usize = 0;
    assert(views.subrange(0, 0) =~= Seq::<FlagView>::empty());
    while i < flags.len()
        invariant
            i <= flags@.len(),
            views == flag_views(flags@),
            values_of(views.subrange(0, i as int), kind).len() == 0,
        decreases flags@.len() - i,
    {
        proof {
            assert(views.subrange(0, i + 1).drop_last() =~= views.subrange(0, i as int));
        }
        if flags[i].kind() == kind {
            proof {
                let found = values_of(views.subrange(0, i + 1), kind);
                let all = values_of(views, kind);
                assert(views.subrange(0, i + 1).last() == views[i as int]);
                assert(found.len() == 1 && found[0] == views[i as int].text());
                lemma_values_of_prefix(views, kind, i + 1);
                assert(all.subrange(0, 1)[0] == all[0]);
                lemma_values_of_has_kind(views, kind);
            }
            return Some(flags[i].text());
        }
        i += 1;
    }
    proof {
        assert(views.subrange(0, i as int) =~= views);
        lemma_values_of_has_kind(views, kind);
    }
    None
}

/// The texts of all flags of kind `kind`, in their order.
pub fn all_values<'a>(flags: &'a Vec<Flag>, kind: TokenKind) -> (values: Vec<&'a str>)
    ensures
        line_views(values@) == values_of(flag_views(flags@), kind),
{
    let ghost views = flag_views(flags@);
    let mut values: Vec<&'a str> = Vec::new();
    let mut i: usize = 0;
    assert(views.subrange(0, 0) =~= Seq::<FlagView>::empty());
    assert(line_views(values@) =~= Seq::<Seq<char>>::empty());
    while i < flags.len()
        invariant
            i <= flags@.len(),
            views == flag_views(flags@),
            line_views(values@) == values_of(views.subrange(0, i as int), kind),
        decreases flags@.len() - i,
    {
        let ghost before = line_views(values@);
        proof {
            assert(views.subrange(0, i + 1).drop_last() =~= views.subrange(0, i as int));
        }
        if flags[i].kind() == kind {
            let text = flags[i].text();
            values.push(text);
            assert(line_views(values@) =~= before.push(text@));
        }
        i += 1;
    }
    assert(views.subrange(0, i as int) =~= views);
    values
}

/// Whether a flag of kind `kind` is among `flags`.
pub fn has_flag(flags: &Vec<Flag>, kind: TokenKind) -> (found: bool)
    ensures
        found == has_kind(flag_views(flags@), kind),
{
    let ghost views = flag_views(flags@);
    let mut i: usize = 0;
    while i < flags.len()
        invariant
            i <= flags@.len(),
            views == flag_views(flags@),
            forall|j: int| 0 <= j < i ==> (#[trigger] views[j]).kind() != kind,
        decreases flags@.len() - i,
    {
        if flags[i].kind() == kind {
            assert(views[i as int].kind() == kind);
            return true;
        }
        i += 1;
    }
    false
}

/// What a request is made of, apart from the URL.
#[derive(Debug, Clone, PartialEq, Eq)]
pub struct RequestParameters<'a> {
    /// The method; `GET` where none was chosen.
    pub method: &'a str,
    /// The header lines, in the order given.
    pub headers: Vec<&'a str>,
    /// The body; empty where none was given.
    pub body: &'a str,
}

/// The value of the first flag of the kind, or `otherwise` without one.
pub open spec fn first_or(
    flags: Seq<FlagView>,
    kind: TokenKind,
    otherwise: Seq<char>,
) -> Seq<char> {
    match first_of(flags, kind) {
        Some(text) => text,
        None => otherwise,
    }
}

/// Picks the parameters of the request from the flags: the first method, or
/// `GET`; every header line; the first body, or the empty one.
pub fn request_parameters<'a>(flags: &'a Vec<Flag>) -> (parameters: RequestParameters<'a>)
    ensures
        parameters.method@ == first_or(flag_views(flags@), TokenKind::Method, DEFAULT_METHOD@),
        line_views(parameters.headers@) == values_of(flag_views(flags@), TokenKind::Header),
        parameters.body@ == first_or(flag_views(flags@), TokenKind::Data, Seq::empty()),
{
    proof {
        reveal_strlit("");
    }
    assert(""@ =~= Seq::<char>::empty());
    let method = match first_value(flags, TokenKind::Method) {
        Some(method) => method,
        None => DEFAULT_METHOD,
    };
    let body = match first_value(flags, TokenKind::Data) {
        Some(body) => body,
        None => "",
    };
    RequestParameters { method, headers: all_values(flags, TokenKind::Header), body }
}

} // verus!
