use rss2pan::text::{
    chars_end_with, chars_find, chars_start_with, is_whitespace, str_chars, str_eq, trim_end_len,
};

fn chars(s: &str) -> Vec<char> {
    s.chars().collect()
}

#[test]
fn find_gives_the_first_occurrence() {
    assert_eq!(chars_find(&chars("abcabc"), &chars("bc")), Some(1));
    assert_eq!(chars_find(&chars("abc"), &chars("")), Some(0));
    assert_eq!(chars_find(&chars("abc"), &chars("abcd")), None);
    assert_eq!(chars_find(&chars("aaab"), &chars("ab")), Some(2));
    assert_eq!(chars_find(&chars("水星的魔女"), &chars("魔女")), Some(3));
}

#[test]
fn prefixes_and_suffixes() {
    assert!(chars_start_with(&chars("https://x"), &chars("http")));
    assert!(!chars_start_with(&chars("htt"), &chars("http")));
    assert!(chars_end_with(&chars("/re/"), &chars("/")));
    assert!(!chars_end_with(&chars("/re"), &chars("/")));
}

#[test]
fn whitespace_agrees_with_std() {
    for code in 0u32..0x3100 {
        if let Some(c) = char::from_u32(code) {
            assert_eq!(is_whitespace(c), c.is_whitespace(), "{:x}", code);
        }
    }
}

#[test]
fn trim_end_agrees_with_std() {
    for s in ["magnet:?xt  \t", "abc", "", "  ", "a b\u{3000}", "x\r"] {
        let cs = chars(s);
        let k = trim_end_len(&cs);
        assert_eq!(cs[..k].iter().collect::<String>(), s.trim_end());
    }
}

#[test]
fn strings_and_chars() {
    assert_eq!(str_chars("a水b"), vec!['a', '水', 'b']);
    assert!(str_eq("abc", "abc"));
    assert!(!str_eq("abc", "abd"));
    assert!(!str_eq("abc", "ab"));
}
