use http_framing::scan::{find_bytes, split_once, str_eq};

#[test]
fn finds_the_first_of_several() {
    assert_eq!(find_bytes(b"abcabc", b"bc"), Some(1));
    assert_eq!(find_bytes(b"aaa", b"aa"), Some(0));
    assert_eq!(find_bytes(b"abc", b"c"), Some(2));
    assert_eq!(find_bytes(b"abc", b"abc"), Some(0));
}

#[test]
fn finds_nothing_where_nothing_is() {
    assert_eq!(find_bytes(b"abc", b"d"), None);
    assert_eq!(find_bytes(b"abc", b"abcd"), None);
    assert_eq!(find_bytes(b"", b"a"), None);
    assert_eq!(find_bytes(b"abab", b"bb"), None);
}

#[test]
fn empty_pattern_is_found_at_the_start() {
    assert_eq!(find_bytes(b"abc", b""), Some(0));
    assert_eq!(find_bytes(b"", b""), Some(0));
    assert_eq!(split_once("abc", ""), Some(("", "abc")));
    assert_eq!(split_once("", ""), Some(("", "")));
}

#[test]
fn cuts_like_std() {
    let texts = ["", "a", "a=b", "=a=b=", "a==b", "===", "é=ü", "日本=語=", "a=b=c=d"];
    let patterns = ["=", "==", "a", "é", "語", "=b", "日本=語="];
    for text in texts {
        for pattern in patterns {
            assert_eq!(split_once(text, pattern), text.split_once(pattern));
        }
    }
}

#[test]
fn pattern_of_several_bytes_is_found_on_a_character_boundary() {
    assert_eq!(split_once("a€b€c", "€"), Some(("a", "b€c")));
    assert_eq!(split_once("🦀🦀", "🦀"), Some(("", "🦀")));
    assert_eq!(split_once("aé", "é"), Some(("a", "")));
}

#[test]
fn equal_strings_are_equal() {
    assert!(str_eq("", ""));
    assert!(str_eq("POST", "POST"));
    assert!(str_eq("日本語", "日本語"));
    assert!(!str_eq("POST", "POSt"));
    assert!(!str_eq("POST", "POS"));
    assert!(!str_eq("", "a"));
    assert!(!str_eq("é", "e"));
}
