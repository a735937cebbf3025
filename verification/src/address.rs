//! Taking a URL apart into scheme, host, port and path.

use vstd::prelude::*;
use crate::scan::{
    lemma_split_first_joined, lemma_split_first_parts, occurs, occurs_at, split_first, split_once,
};

verus! {

/// The port of a URL that names none.
pub const DEFAULT_PORT: &'static str = "80";

/// What parts a scheme from the rest of a URL.
pub const SCHEME_SEPARATOR: &'static str = "://";

/// What parts host and port from the path.
pub const PATH_SEPARATOR: &'static str = "/";

/// What parts the host from the port.
pub const PORT_SEPARATOR: &'static str = ":";

/// The two sides of the first `pat` in `s`; where `s` holds no `pat`, the
/// pair given as `otherwise`.
pub open spec fn split_or(
    s: Seq<char>,
    pat: Seq<char>,
    otherwise: (Seq<char>, Seq<char>),
) -> (Seq<char>, Seq<char>) {
    match split_first(s, pat) {
        Some(parts) => parts,
        None => otherwise,
    }
}

/// Scheme, host, port and path of a URL, in this order.
///
/// The scheme is what stands before the first `://`, and empty without one.
/// Of the rest, the path is what follows the first `/`, and empty without
/// one. Of what stands before the path, the port is what follows the first
/// `:`, and `80` without one; the host is what is left.
pub open spec fn decompose(url: Seq<char>) -> (Seq<char>, Seq<char>, Seq<char>, Seq<char>) {
    let (scheme, rest) = split_or(url, SCHEME_SEPARATOR@, (Seq::empty(), url));
    let (host_and_port, path) = split_or(rest, PATH_SEPARATOR@, (rest, Seq::empty()));
    let (host, port) = split_or(host_and_port, PORT_SEPARATOR@, (host_and_port, DEFAULT_PORT@));
    (scheme, host, port, path)
}

/// Takes a URL apart into scheme, host, port and path. No input is refused:
/// a part that is missing comes out empty, but for the port, which is then `80`.
pub fn parse_url<'a>(url: &'a str) -> (parts: (&'a str, &'a str, &'a str, &'a str))
    ensures
        (parts.0@, parts.1@, parts.2@, parts.3@) == decompose(url@),
{
    proof {
        reveal_strlit("");
    }
    let (protocol, remaining_url) = match split_once(url, SCHEME_SEPARATOR) {
        Some(parts) => parts,
        None => ("", url),
    };
    let (host_and_port, path) = match split_once(remaining_url, PATH_SEPARATOR) {
        Some(parts) => parts,
        None => (remaining_url, ""),
    };
    let (host, port) = match split_once(host_and_port, PORT_SEPARATOR) {
        Some(parts) => parts,
        None => (host_and_port, DEFAULT_PORT),
    };
    assert(""@ =~= Seq::<char>::empty());
    (protocol, host, port, path)
}

/// Whether the parser of the `url` crate reads `input` as an absolute URL.
pub uninterp spec fn parses_as_url(input: Seq<char>) -> bool;

/// Calls `url::Url::parse` on `input` and tells whether it gave a URL or an
/// error. The parser reads nothing but its argument, so its verdict is a
/// function of the characters of `input`; which strings it accepts is not
/// stated here.
#[verifier::external_body]
fn parse_succeeds(input: &str) -> (ok: bool)
    ensures
        ok == parses_as_url(input@),
{
    url::Url::parse(input).is_ok()
}

/// Whether `url` is an absolute URL in the judgement of the `url` crate.
pub fn is_valid_url(url: &str) -> (valid: bool)
    ensures
        valid == parses_as_url(url@),
{
    parse_succeeds(url)
}

/// A URL put together from its four parts: `scheme://host:port/path`.
pub open spec fn assemble(
    scheme: Seq<char>,
    host: Seq<char>,
    port: Seq<char>,
    path: Seq<char>,
) -> Seq<char> {
    scheme + SCHEME_SEPARATOR@ + host + PORT_SEPARATOR@ + port + PATH_SEPARATOR@ + path
}

/// The parts that `scheme://host:port/path` gives back as they are: a scheme
/// without `://`, a host without `/` and `:`, a port without `/`.
pub open spec fn parts_are_plain(scheme: Seq<char>, host: Seq<char>, port: Seq<char>) -> bool {
    &&& !occurs(scheme, SCHEME_SEPARATOR@)
    &&& !host.contains('/')
    &&& !host.contains(':')
    &&& !port.contains('/')
}

proof fn lemma_separators()
    ensures
        SCHEME_SEPARATOR@ == seq![':', '/', '/'],
        PATH_SEPARATOR@ == seq!['/'],
        PORT_SEPARATOR@ == seq![':'],
        DEFAULT_PORT@ == seq!['8', '0'],
{
    reveal_strlit("://");
    reveal_strlit("/");
    reveal_strlit(":");
    reveal_strlit("80");
    assert(SCHEME_SEPARATOR@ =~= seq![':', '/', '/']);
    assert(PATH_SEPARATOR@ =~= seq!['/']);
    assert(PORT_SEPARATOR@ =~= seq![':']);
    assert(DEFAULT_PORT@ =~= seq!['8', '0']);
}

/// A string without the character `c` is cut at the `c` that is put behind it.
proof fn lemma_split_at_char(before: Seq<char>, c: char, after: Seq<char>)
    requires
        !before.contains(c),
    ensures
        split_first(before + seq![c] + after, seq![c]) == Some((before, after)),
{
    let pat = seq![c];
    assert forall|j: int| 0 <= j < before.len() implies !occurs_at(before + pat, pat, j) by {
        if occurs_at(before + pat, pat, j) {
            assert((before + pat).subrange(j, j + 1)[0] == before[j]);
        }
    }
    lemma_split_first_joined(before, pat, after);
}

/// What stands before the first `c` of a string holds no `c`.
proof fn lemma_no_char_before_split(s: Seq<char>, c: char)
    requires
        occurs(s, seq![c]),
    ensures
        split_first(s, seq![c]) matches Some(parts) && !parts.0.contains(c),
{
    let pat = seq![c];
    lemma_split_first_parts(s, pat);
    let before = split_first(s, pat).unwrap().0;
    if before.contains(c) {
        let k = choose|k: int| 0 <= k < before.len() && before[k] == c;
        assert(s[k] == before[k]);
        assert(s.subrange(k, k + 1) =~= pat);
        assert(occurs_at(s, pat, k));
    }
}

/// A string in which the one-character string `c` does not occur holds no `c`.
proof fn lemma_no_char_without_occurrence(s: Seq<char>, c: char)
    requires
        !occurs(s, seq![c]),
    ensures
        !s.contains(c),
{
    if s.contains(c) {
        let k = choose|k: int| 0 <= k < s.len() && s[k] == c;
        assert(s.subrange(k, k + 1) =~= seq![c]);
        assert(occurs_at(s, seq![c], k));
    }
}

/// Taking `scheme://host:port/path` apart gives back the four parts as they
/// were put in, whenever the scheme holds no `://`, the host no `/` and no
/// `:`, and the port no `/`. The path may hold anything.
pub proof fn lemma_decompose_assembled(
    scheme: Seq<char>,
    host: Seq<char>,
    port: Seq<char>,
    path: Seq<char>,
)
    requires
        parts_are_plain(scheme, host, port),
    ensures
        decompose(assemble(scheme, host, port, path)) == (scheme, host, port, path),
{
    lemma_separators();
    let sep = SCHEME_SEPARATOR@;
    let host_and_port = host + PORT_SEPARATOR@ + port;
    let rest = host_and_port + PATH_SEPARATOR@ + path;
    let url = assemble(scheme, host, port, path);
    assert(url =~= scheme + sep + rest);
    assert forall|j: int| 0 <= j < scheme.len() implies !occurs_at(scheme + sep, sep, j) by {
        if occurs_at(scheme + sep, sep, j) {
            let w = (scheme + sep).subrange(j, j + 3);
            if j + 3 <= scheme.len() {
                assert(scheme.subrange(j, j + 3) =~= w);
                assert(occurs_at(scheme, sep, j));
            } else if j + 2 == scheme.len() {
                assert(w[2] == sep[0]);
            } else {
                assert(w[1] == sep[0]);
            }
        }
    }
    lemma_split_first_joined(scheme, sep, rest);
    assert(!host_and_port.contains('/')) by {
        if host_and_port.contains('/') {
            let k = choose|k: int| 0 <= k < host_and_port.len() && host_and_port[k] == '/';
            if k < host.len() {
                assert(host[k] == '/');
            } else if k > host.len() {
                assert(port[k - host.len() - 1] == '/');
            }
        }
    }
    lemma_split_at_char(host_and_port, '/', path);
    lemma_split_at_char(host, ':', port);
}

/// Taking a URL apart, putting the parts together as
/// `scheme://host:port/path` and taking that apart again gives the same
/// four parts.
pub proof fn lemma_decompose_idempotent(url: Seq<char>)
    ensures
        ({
            let (scheme, host, port, path) = decompose(url);
            decompose(assemble(scheme, host, port, path)) == decompose(url)
        }),
{
    lemma_separators();
    let (scheme, host, port, path) = decompose(url);
    let (_, rest) = split_or(url, SCHEME_SEPARATOR@, (Seq::empty(), url));
    let (host_and_port, _) = split_or(rest, PATH_SEPARATOR@, (rest, Seq::empty()));
    assert(!occurs(scheme, SCHEME_SEPARATOR@)) by {
        if occurs(scheme, SCHEME_SEPARATOR@) {
            let j = choose|j: int| occurs_at(scheme, SCHEME_SEPARATOR@, j);
            if occurs(url, SCHEME_SEPARATOR@) {
                lemma_split_first_parts(url, SCHEME_SEPARATOR@);
                assert(url.subrange(j, j + 3) =~= scheme.subrange(j, j + 3));
                assert(occurs_at(url, SCHEME_SEPARATOR@, j));
            }
        }
    }
    assert(!host_and_port.contains('/')) by {
        if occurs(rest, PATH_SEPARATOR@) {
            lemma_no_char_before_split(rest, '/');
        } else {
            lemma_no_char_without_occurrence(rest, '/');
        }
    }
    if occurs(host_and_port, PORT_SEPARATOR@) {
        lemma_no_char_before_split(host_and_port, ':');
        lemma_split_first_parts(host_and_port, PORT_SEPARATOR@);
        assert(host_and_port == host + PORT_SEPARATOR@ + port);
        assert forall|k: int| 0 <= k < host.len() implies host[k] != '/' by {
            assert(host_and_port[k] == host[k]);
        }
        assert forall|k: int| 0 <= k < port.len() implies port[k] != '/' by {
            assert(host_and_port[host.len() + 1 + k] == port[k]);
        }
    } else {
        lemma_no_char_without_occurrence(host_and_port, ':');
    }
    lemma_decompose_assembled(scheme, host, port, path);
}

} // verus!
