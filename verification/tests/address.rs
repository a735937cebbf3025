use http_framing::address::{is_valid_url, parse_url, DEFAULT_PORT};

#[test]
fn full_url_gives_its_four_parts() {
    assert_eq!(
        parse_url("http://example.com:8080/index.html"),
        ("http", "example.com", "8080", "index.html")
    );
}

#[test]
fn bare_host_gets_default_port_and_empty_path() {
    assert_eq!(parse_url("example.com"), ("", "example.com", "80", ""));
}

#[test]
fn only_first_slash_splits_the_path() {
    assert_eq!(
        parse_url("example.com:8080/a/b"),
        ("", "example.com", "8080", "a/b")
    );
}

#[test]
fn trailing_slash_is_consumed() {
    assert_eq!(
        parse_url("http://example.com/"),
        ("http", "example.com", "80", "")
    );
}

#[test]
fn default_port_is_eighty() {
    assert_eq!(DEFAULT_PORT, "80");
    assert_eq!(parse_url("https://example.com/x").2, "80");
}

#[test]
fn only_first_scheme_separator_splits() {
    assert_eq!(
        parse_url("a://b://c/d"),
        ("a", "b", "", "/c/d")
    );
}

#[test]
fn only_first_colon_splits_host_and_port() {
    assert_eq!(
        parse_url("http://host:1:2/p"),
        ("http", "host", "1:2", "p")
    );
}

#[test]
fn colon_in_path_is_no_port() {
    assert_eq!(
        parse_url("http://host/a:b"),
        ("http", "host", "80", "a:b")
    );
}

#[test]
fn query_and_fragment_stay_in_the_path() {
    assert_eq!(
        parse_url("http://example.com:81/search?q=1#top"),
        ("http", "example.com", "81", "search?q=1#top")
    );
}

#[test]
fn query_without_slash_stays_in_the_host() {
    assert_eq!(
        parse_url("http://example.com?q=1"),
        ("http", "example.com?q=1", "80", "")
    );
}

#[test]
fn port_is_not_checked_to_be_a_number() {
    assert_eq!(
        parse_url("http://example.com:http/x"),
        ("http", "example.com", "http", "x")
    );
}

#[test]
fn empty_input_gives_empty_parts() {
    assert_eq!(parse_url(""), ("", "", "80", ""));
}

#[test]
fn empty_host_flows_through() {
    assert_eq!(parse_url("http:///x"), ("http", "", "80", "x"));
    assert_eq!(parse_url("http://"), ("http", "", "80", ""));
    assert_eq!(parse_url("://"), ("", "", "80", ""));
    assert_eq!(parse_url(":"), ("", "", "", ""));
    assert_eq!(parse_url("/"), ("", "", "80", ""));
}

#[test]
fn empty_port_after_colon() {
    assert_eq!(parse_url("http://host:/x"), ("http", "host", "", "x"));
}

#[test]
fn scheme_without_slashes_is_host_and_port() {
    assert_eq!(
        parse_url("mailto:someone"),
        ("", "mailto", "someone", "")
    );
}

#[test]
fn characters_of_several_bytes_are_kept_whole() {
    assert_eq!(
        parse_url("hé://wörld:8€/päth/ü"),
        ("hé", "wörld", "8€", "päth/ü")
    );
    assert_eq!(parse_url("日本語"), ("", "日本語", "80", ""));
    assert_eq!(parse_url("日://本:語/🦀"), ("日", "本", "語", "🦀"));
}

#[test]
fn parts_are_slices_of_the_input() {
    let url = String::from("http://example.com:8080/a");
    let (scheme, host, port, path) = parse_url(&url);
    let base = url.as_ptr() as usize;
    assert_eq!(scheme.as_ptr() as usize - base, 0);
    assert_eq!(host.as_ptr() as usize - base, 7);
    assert_eq!(port.as_ptr() as usize - base, 19);
    assert_eq!(path.as_ptr() as usize - base, 24);
}

fn reassemble(parts: (&str, &str, &str, &str)) -> String {
    format!("{}://{}:{}/{}", parts.0, parts.1, parts.2, parts.3)
}

#[test]
fn assembled_parts_come_back_unchanged() {
    let cases = [
        ("http", "example.com", "80", "a/b/c"),
        ("", "", "", ""),
        ("https", "localhost", "8443", "x://y:z/w"),
        ("a:b", "h", "p:q", "/"),
        ("s:/", "h", "1", ":"),
    ];
    for parts in cases {
        let url = reassemble(parts);
        assert_eq!(parse_url(&url), parts);
    }
}

#[test]
fn parts_with_separators_do_not_come_back() {
    assert_eq!(
        parse_url(&reassemble(("a://b", "h", "1", "p"))),
        ("a", "b", "", "/h:1/p")
    );
    assert_eq!(
        parse_url(&reassemble(("s", "a/b", "1", "p"))),
        ("s", "a", "80", "b:1/p")
    );
    assert_eq!(
        parse_url(&reassemble(("s", "a:b", "1", "p"))),
        ("s", "a", "b:1", "p")
    );
    assert_eq!(
        parse_url(&reassemble(("s", "h", "1/2", "p"))),
        ("s", "h", "1", "2/p")
    );
}

#[test]
fn decomposing_twice_changes_nothing() {
    let inputs = [
        "example.com",
        "example.com:8080/a/b",
        "http://example.com/",
        "http://host:1:2/p",
        "a://b://c/d",
        "",
        "://",
        "http:///x",
        "mailto:someone",
        "hé://wörld:8€/päth/ü",
        "no/scheme://here",
    ];
    for input in inputs {
        let first = parse_url(input);
        let again = reassemble(first);
        assert_eq!(parse_url(&again), first);
    }
}

#[test]
fn absolute_urls_are_valid() {
    assert!(is_valid_url("http://example.com"));
    assert!(is_valid_url("https://example.com:8080/a/b?q=1#f"));
    assert!(is_valid_url("mailto:someone@example.com"));
}

#[test]
fn words_and_flags_are_no_urls() {
    assert!(!is_valid_url("example.com"));
    assert!(!is_valid_url("-H"));
    assert!(!is_valid_url("--verbose"));
    assert!(!is_valid_url(""));
    assert!(!is_valid_url("/a/b"));
    assert!(!is_valid_url("http://"));
}
