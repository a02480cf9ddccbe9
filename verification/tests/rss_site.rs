use rss2pan::rss_config::RssConfig;
use rss2pan::rss_site::{
    cut_before, find_site, first_extension_value, get_magnetitem_list, get_site, title_passes_filter, Acgnx, Dmhy,
    FeedItem, MagnetItem, MagnetSite, Mikanani, Nyaa, SiteKind,
};

fn item(link: Option<&str>) -> FeedItem {
    FeedItem {
        title: Some("Show - 01".to_string()),
        link: link.map(String::from),
        description: Some("desc".to_string()),
        content: None,
        enclosure_url: None,
        extensions: vec![],
    }
}

#[test]
fn regex_filter_alternatives() {
    let str_list = [
        "[7月新番][传颂之物 二人的白皇][Utawarerumono - Futari no Hakuoro][09][1080P][MP4][GB][简中] [241.72 MB]",
        "【幻樱字幕组】【7月新番】【传颂之物 二人白皇 Utawarerumono-Futari no Hakuoro-】【16】【BIG5_MP4】【1920X1080】 [321.13 MB]",
        "[动漫国字幕组&澄空学园&LoliHouse] 传颂之物 二人的白皇 / Utawarerumono Futari no Hakuoro - 16 [WebRip 1080p HEVC-10bit AAC][简繁外挂字幕] [485.4 MB]",
    ];
    let pat = Some("/澄空学园|幻樱|\\d{4}[p]/".to_string());
    // `[p]` is a lower-case p: the first title has `1080P` and none of the
    // other alternatives.
    assert_eq!(str_list.map(|s| title_passes_filter(&pat, s)), [false, true, true]);
}

#[test]
fn filter_without_pattern_keeps_every_title() {
    assert!(title_passes_filter(&None, "anything"));
    assert!(title_passes_filter(&None, ""));
}

#[test]
fn plain_filter_needs_the_text_in_the_title() {
    let f = Some("简日双语".to_string());
    assert!(title_passes_filter(&f, "[水星的魔女][简日双语][1080p]"));
    assert!(!title_passes_filter(&f, "[水星的魔女][繁日双语][1080p]"));
    let slash_inside = Some("a/b".to_string());
    assert!(title_passes_filter(&slash_inside, "xa/bx"));
    assert!(!title_passes_filter(&slash_inside, "ab"));
}

#[test]
fn regex_filter_matches_or_is_ignored_when_invalid() {
    let f = Some("/\\d{3,4}[pP]/".to_string());
    assert!(title_passes_filter(&f, "Show 1080P"));
    assert!(!title_passes_filter(&f, "Show 10P"));
    let bad = Some("/(unclosed/".to_string());
    assert!(title_passes_filter(&bad, "whatever"));
    let empty = Some("//".to_string());
    assert!(title_passes_filter(&empty, "whatever"));
}

#[test]
fn mikanani_magnet_comes_from_the_episode_link() {
    let it = item(Some("https://mikanani.me/Home/Episode/8c4a2b1e"));
    assert_eq!(Mikanani.get_magnet(&it), "magnet:?xt=urn:btih:8c4a2b1e");
    let m = MagnetItem::new(&it);
    assert_eq!(m.magnet, "magnet:?xt=urn:btih:8c4a2b1e");
    assert_eq!(m.title, "Show - 01");
    assert_eq!(m.link, "https://mikanani.me/Home/Episode/8c4a2b1e");
    assert_eq!(m.description, Some("desc".to_string()));
    assert_eq!(m.content, None);
}

#[test]
fn magnet_item_without_title_has_empty_title() {
    let mut it = item(Some("https://mikanani.me/Home/Episode/ff"));
    it.title = None;
    let m = Mikanani.get_magnet_item(&it);
    assert_eq!(m.title, "");
}

#[test]
fn nyaa_magnet_comes_from_the_info_hash() {
    let mut it = item(Some("https://nyaa.si/view/1"));
    it.extensions = vec![
        ("dc".to_string(), vec![("creator".to_string(), vec![Some("x".to_string())])]),
        (
            "nyaa".to_string(),
            vec![
                ("category".to_string(), vec![Some("Anime".to_string())]),
                ("infoHash".to_string(), vec![Some("0123abcd".to_string()), Some("ffff".to_string())]),
            ],
        ),
    ];
    assert_eq!(Nyaa.get_magnet(&it), "magnet:?xt=urn:btih:0123abcd");
    assert!(SiteKind::Nyaa.accepts_item(&it));
    assert_eq!(first_extension_value(&it, "nyaa", "infoHash"), Some("0123abcd".to_string()));
    assert_eq!(first_extension_value(&it, "nyaa", "size"), None);
    it.extensions = vec![("nyaa".to_string(), vec![("infoHash".to_string(), vec![None])])];
    assert!(!SiteKind::Nyaa.accepts_item(&it));
    it.extensions = vec![("nyaa".to_string(), vec![("infoHash".to_string(), vec![])])];
    assert!(!SiteKind::Nyaa.accepts_item(&it));
}

#[test]
fn dmhy_and_acgnx_cut_the_enclosure_url() {
    let mut it = item(Some("https://share.dmhy.org/topics/view/1"));
    it.enclosure_url = Some("magnet:?xt=urn:btih:AAA&dn=name&tr=http://t".to_string());
    assert_eq!(Dmhy.get_magnet(&it), "magnet:?xt=urn:btih:AAA");
    assert_eq!(Acgnx.get_magnet(&it), "magnet:?xt=urn:btih:AAA&dn=name");
    it.enclosure_url = Some("magnet:?xt=urn:btih:BBB".to_string());
    assert_eq!(Dmhy.get_magnet(&it), "magnet:?xt=urn:btih:BBB");
    assert_eq!(Acgnx.get_magnet(&it), "magnet:?xt=urn:btih:BBB");
}

#[test]
fn cut_before_first_occurrence() {
    assert_eq!(cut_before("a&tr=b&tr=c", "&tr="), "a");
    assert_eq!(cut_before("abc", "&tr="), "abc");
    assert_eq!(cut_before("", "x"), "");
}

#[test]
fn sites_by_host_and_by_url() {
    assert_eq!(get_site("mikanani.me"), SiteKind::Mikanani);
    assert_eq!(get_site("nyaa.si"), SiteKind::Nyaa);
    assert_eq!(get_site("sukebei.nyaa.si"), SiteKind::Nyaa);
    assert_eq!(get_site("share.dmhy.org"), SiteKind::Dmhy);
    assert_eq!(
        get_site("https://mikanani.me/RSS/Bangumi?bangumiId=2739&subgroupid=12"),
        SiteKind::Mikanani
    );
    assert_eq!(get_site("https://sukebei.nyaa.si/?page=rss&u=hikiko123"), SiteKind::Nyaa);
    assert_eq!(find_site("example.com"), None);
    assert_eq!(find_site("https://example.com/rss"), None);
    assert_eq!(find_site("http"), None);
    assert_eq!(find_site("share.dmhy.org"), Some(SiteKind::Dmhy));
}

fn config(url: &str, filter: Option<&str>) -> RssConfig {
    RssConfig {
        name: "test".to_string(),
        url: url.to_string(),
        cid: None,
        filter: filter.map(String::from),
        expiration: None,
    }
}

const MIKAN_FEED: &str = r#"<?xml version="1.0" encoding="utf-8"?>
<rss version="2.0"><channel><title>Mikan Project</title><link>http://mikanani.me/RSS/Bangumi</link><description>feed</description>
<item><title>[Sub] Show - 01 [1080p][简体]</title><link>https://mikanani.me/Home/Episode/aaa111</link><description>one</description><enclosure url="https://mikanani.me/Download/1.torrent" length="1" type="application/x-bittorrent"/></item>
<item><title>[Sub] Show - 02 [720p][繁体]</title><link>https://mikanani.me/Home/Episode/bbb222</link><description>two</description></item>
</channel></rss>"#;

const NYAA_FEED: &str = r#"<?xml version="1.0" encoding="UTF-8"?>
<rss xmlns:nyaa="https://nyaa.si/xmlns/nyaa" version="2.0"><channel><title>Nyaa</title><link>https://nyaa.si/</link><description>feed</description>
<item><title>[VCB-Studio] Show [Ma10p_1080p]</title><link>https://nyaa.si/download/1.torrent</link><nyaa:infoHash>cafe0001</nyaa:infoHash></item>
</channel></rss>"#;

#[test]
fn magnet_items_of_a_mikanani_feed() {
    let c = config("https://mikanani.me/RSS/Bangumi?bangumiId=2739", None);
    let items = get_magnetitem_list(&c, Some(MIKAN_FEED.as_bytes())).unwrap();
    let magnets: Vec<&str> = items.iter().map(|m| m.magnet.as_str()).collect();
    assert_eq!(magnets, ["magnet:?xt=urn:btih:aaa111", "magnet:?xt=urn:btih:bbb222"]);
    assert_eq!(items[0].title, "[Sub] Show - 01 [1080p][简体]");
}

#[test]
fn magnet_items_pass_the_filter() {
    let c = config("https://mikanani.me/RSS/Bangumi?bangumiId=2739", Some("/简体|1080p/"));
    let items = get_magnetitem_list(&c, Some(MIKAN_FEED.as_bytes())).unwrap();
    assert_eq!(items.len(), 1);
    assert_eq!(items[0].magnet, "magnet:?xt=urn:btih:aaa111");
    let c = config("https://mikanani.me/RSS/Bangumi?bangumiId=2739", Some("繁体"));
    let items = get_magnetitem_list(&c, Some(MIKAN_FEED.as_bytes())).unwrap();
    assert_eq!(items.len(), 1);
    assert_eq!(items[0].magnet, "magnet:?xt=urn:btih:bbb222");
}

#[test]
fn magnet_items_of_a_nyaa_feed() {
    let c = config("https://nyaa.si/?page=rss&u=VCB-Studio", None);
    let items = get_magnetitem_list(&c, Some(NYAA_FEED.as_bytes())).unwrap();
    assert_eq!(items.len(), 1);
    assert_eq!(items[0].magnet, "magnet:?xt=urn:btih:cafe0001");
    assert_eq!(items[0].link, "https://nyaa.si/download/1.torrent");
}

#[test]
fn no_feed_or_bad_feed_gives_no_items() {
    let c = config("https://mikanani.me/RSS/Bangumi?bangumiId=2739", None);
    assert_eq!(get_magnetitem_list(&c, None).unwrap().len(), 0);
    assert_eq!(get_magnetitem_list(&c, Some(b"not xml at all")).unwrap().len(), 0);
}

#[test]
fn unknown_site_or_unusable_items_give_none() {
    let c = config("https://example.com/rss", None);
    assert!(get_magnetitem_list(&c, Some(MIKAN_FEED.as_bytes())).is_none());
    let c = config("https://nyaa.si/?page=rss", None);
    assert!(get_magnetitem_list(&c, Some(MIKAN_FEED.as_bytes())).is_none());
    let c = config("https://mikanani.me/RSS/Bangumi?bangumiId=1", Some("/"));
    assert!(get_magnetitem_list(&c, Some(MIKAN_FEED.as_bytes())).is_none());
}

#[test]
fn site_of_a_url_is_that_of_its_host() {
    for (url, host) in [
        ("https://nyaa.si/?page=rss&u=VCB-Studio", "nyaa.si"),
        ("https://share.dmhy.org/topics/rss/rss.xml", "share.dmhy.org"),
        ("https://mikanani.me/RSS/Bangumi?bangumiId=2739", "mikanani.me"),
        ("https://sukebei.nyaa.si/?page=rss", "sukebei.nyaa.si"),
        ("https://example.com/rss", "example.com"),
    ] {
        assert_eq!(find_site(url), find_site(host));
    }
    assert_eq!(find_site("https://httpbin.org/rss"), None);
}
