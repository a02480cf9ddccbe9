use rss2pan::utils::magnet_list_from_text;

#[test]
fn links_are_read_line_by_line() {
    let text = "magnet:?xt=urn:btih:1  \r\nnot a link\nhttps://a/b.torrent\nftp://h/f\r\nftps://h/g\nhttp://x\n\nmagnet:?xt=urn:btih:2";
    assert_eq!(
        magnet_list_from_text(text),
        vec![
            "magnet:?xt=urn:btih:1",
            "https://a/b.torrent",
            "ftp://h/f",
            "ftps://h/g",
            "http://x",
            "magnet:?xt=urn:btih:2",
        ]
    );
}

#[test]
fn lines_that_do_not_start_with_a_scheme_are_skipped() {
    assert_eq!(magnet_list_from_text("  magnet:?xt=1\nMAGNET:?x\nfile://x\n"), Vec::<String>::new());
    assert_eq!(magnet_list_from_text(""), Vec::<String>::new());
}

#[test]
fn carriage_return_is_kept_without_line_feed() {
    assert_eq!(magnet_list_from_text("magnet:a\r"), vec!["magnet:a"]);
    assert_eq!(magnet_list_from_text("magnet:a\r\n"), vec!["magnet:a"]);
}
