use http_framing::args::{
    all_values, classify, collect_flags, first_value, has_flag, request_parameters,
    Collected, Flag, RequestParameters, TokenKind,
};

fn tokens(words: &[&str]) -> Vec<String> {
    words.iter().map(|word| word.to_string()).collect()
}

#[test]
fn flags_are_known_by_their_spelling() {
    assert_eq!(classify("-H"), TokenKind::Header);
    assert_eq!(classify("--header"), TokenKind::Header);
    assert_eq!(classify("-d"), TokenKind::Data);
    assert_eq!(classify("--data"), TokenKind::Data);
    assert_eq!(classify("-X"), TokenKind::Method);
    assert_eq!(classify("--request"), TokenKind::Method);
    assert_eq!(classify("-h"), TokenKind::Help);
    assert_eq!(classify("--help"), TokenKind::Help);
    assert_eq!(classify("-v"), TokenKind::Verbose);
    assert_eq!(classify("--verbose"), TokenKind::Verbose);
}

#[test]
fn absolute_url_is_a_url_token() {
    assert_eq!(classify("http://example.com/a"), TokenKind::Url);
    assert_eq!(classify("https://example.com:8080"), TokenKind::Url);
}

#[test]
fn other_tokens_are_unknown() {
    assert_eq!(classify("example.com"), TokenKind::Unknown);
    assert_eq!(classify("-x"), TokenKind::Unknown);
    assert_eq!(classify("-V"), TokenKind::Unknown);
    assert_eq!(classify("--Header"), TokenKind::Unknown);
    assert_eq!(classify("-H "), TokenKind::Unknown);
    assert_eq!(classify(""), TokenKind::Unknown);
}

#[test]
fn kind_and_text_of_a_flag() {
    let flag = Flag::Header("A: 1\r\n".to_string());
    assert_eq!(flag.kind(), TokenKind::Header);
    assert_eq!(flag.text(), "A: 1\r\n");
    assert_eq!(Flag::Method("PUT".to_string()).kind(), TokenKind::Method);
    assert_eq!(Flag::Data("x".to_string()).kind(), TokenKind::Data);
    assert_eq!(Flag::Url("u".to_string()).kind(), TokenKind::Url);
    assert_eq!(Flag::Verbose.kind(), TokenKind::Verbose);
    assert_eq!(Flag::Verbose.text(), "");
    assert_eq!(Flag::Help.kind(), TokenKind::Help);
    assert_eq!(Flag::Help.text(), "");
}

#[test]
fn command_line_is_read_in_order() {
    let collected = collect_flags(&tokens(&[
        "-v",
        "-X",
        "POST",
        "http://example.com/api",
        "-H",
        "Content-Type: text/plain\r\n",
        "--data",
        "hello",
        "--help",
    ]));
    assert_eq!(
        collected,
        Collected {
            flags: vec![
                Flag::Verbose,
                Flag::Method("POST".to_string()),
                Flag::Url("http://example.com/api".to_string()),
                Flag::Header("Content-Type: text/plain\r\n".to_string()),
                Flag::Data("hello".to_string()),
                Flag::Help,
            ],
            unknown: vec![],
            missing_value: None,
        }
    );
}

#[test]
fn empty_command_line_gives_nothing() {
    assert_eq!(
        collect_flags(&tokens(&[])),
        Collected { flags: vec![], unknown: vec![], missing_value: None }
    );
}

#[test]
fn unknown_tokens_are_put_aside() {
    let collected = collect_flags(&tokens(&["example.com", "-v", "--nope", "http://a.b/"]));
    assert_eq!(collected.flags, vec![Flag::Verbose, Flag::Url("http://a.b/".to_string())]);
    assert_eq!(collected.unknown, tokens(&["example.com", "--nope"]));
    assert_eq!(collected.missing_value, None);
}

#[test]
fn value_is_taken_whatever_it_spells() {
    let collected = collect_flags(&tokens(&["-H", "-v", "-d", "http://a.b/", "-X", "--help"]));
    assert_eq!(
        collected.flags,
        vec![
            Flag::Header("-v".to_string()),
            Flag::Data("http://a.b/".to_string()),
            Flag::Method("--help".to_string()),
        ]
    );
    assert!(collected.unknown.is_empty());
    assert_eq!(collected.missing_value, None);
}

#[test]
fn flag_without_value_at_the_end_is_reported() {
    for flag in ["-H", "--header", "-X", "--request", "-d", "--data"] {
        let collected = collect_flags(&tokens(&["-v", "what", "http://a.b/", flag]));
        assert_eq!(collected.flags, vec![Flag::Verbose, Flag::Url("http://a.b/".to_string())]);
        assert_eq!(collected.unknown, tokens(&["what"]));
        assert_eq!(collected.missing_value, Some(flag.to_string()));
    }
}

#[test]
fn lone_flag_without_value_is_reported() {
    let collected = collect_flags(&tokens(&["-d"]));
    assert_eq!(
        collected,
        Collected { flags: vec![], unknown: vec![], missing_value: Some("-d".to_string()) }
    );
}

fn sample() -> Vec<Flag> {
    vec![
        Flag::Header("A: 1\r\n".to_string()),
        Flag::Url("http://first/".to_string()),
        Flag::Method("PUT".to_string()),
        Flag::Header("B: 2\r\n".to_string()),
        Flag::Data("one".to_string()),
        Flag::Url("http://second/".to_string()),
        Flag::Method("POST".to_string()),
        Flag::Data("two".to_string()),
        Flag::Verbose,
    ]
}

#[test]
fn first_value_of_each_kind() {
    let flags = sample();
    assert_eq!(first_value(&flags, TokenKind::Url), Some("http://first/"));
    assert_eq!(first_value(&flags, TokenKind::Method), Some("PUT"));
    assert_eq!(first_value(&flags, TokenKind::Data), Some("one"));
    assert_eq!(first_value(&flags, TokenKind::Header), Some("A: 1\r\n"));
    assert_eq!(first_value(&flags, TokenKind::Verbose), Some(""));
    assert_eq!(first_value(&flags, TokenKind::Help), None);
    assert_eq!(first_value(&flags, TokenKind::Unknown), None);
    assert_eq!(first_value(&vec![], TokenKind::Url), None);
}

#[test]
fn all_values_of_a_kind_in_order() {
    let flags = sample();
    assert_eq!(all_values(&flags, TokenKind::Header), vec!["A: 1\r\n", "B: 2\r\n"]);
    assert_eq!(all_values(&flags, TokenKind::Url), vec!["http://first/", "http://second/"]);
    assert_eq!(all_values(&flags, TokenKind::Help), Vec::<&str>::new());
    assert_eq!(all_values(&vec![], TokenKind::Header), Vec::<&str>::new());
}

#[test]
fn flag_is_found_by_kind() {
    let flags = sample();
    assert!(has_flag(&flags, TokenKind::Verbose));
    assert!(has_flag(&flags, TokenKind::Header));
    assert!(!has_flag(&flags, TokenKind::Help));
    assert!(!has_flag(&flags, TokenKind::Unknown));
    assert!(!has_flag(&vec![], TokenKind::Verbose));
}

#[test]
fn parameters_are_picked_from_the_flags() {
    let flags = sample();
    assert_eq!(
        request_parameters(&flags),
        RequestParameters { method: "PUT", headers: vec!["A: 1\r\n", "B: 2\r\n"], body: "one" }
    );
}

#[test]
fn parameters_default_to_get_without_headers_and_body() {
    let flags = vec![Flag::Url("http://a.b/".to_string()), Flag::Verbose];
    assert_eq!(
        request_parameters(&flags),
        RequestParameters { method: "GET", headers: vec![], body: "" }
    );
    assert_eq!(
        request_parameters(&vec![]),
        RequestParameters { method: "GET", headers: vec![], body: "" }
    );
}
