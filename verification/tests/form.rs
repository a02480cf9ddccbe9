use rss2pan::form::{decimal_string, url_key_string, FormData};

#[test]
fn decimals() {
    assert_eq!(decimal_string(0), "0");
    assert_eq!(decimal_string(7), "7");
    assert_eq!(decimal_string(10), "10");
    assert_eq!(decimal_string(1234567890), "1234567890");
    assert_eq!(decimal_string(u64::MAX), u64::MAX.to_string());
    assert_eq!(url_key_string(12), "url[12]");
}

#[test]
fn insert_replaces_a_key() {
    let mut f = FormData::new();
    f.insert("a".into(), "1".into());
    f.insert("b".into(), "2".into());
    f.insert("a".into(), "3".into());
    assert_eq!(f.pairs(), &vec![("a".to_string(), "3".to_string()), ("b".to_string(), "2".to_string())]);
}
