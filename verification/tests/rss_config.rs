use rss2pan::rss_config::{find_rss_config_by_url, get_rss_config_by_url, ConfigError, RssConfig, RssDict};

fn dict() -> RssDict {
    let mut d = RssDict::new();
    d.insert(
        "mikanani.me".to_string(),
        vec![RssConfig {
            name: "test".to_string(),
            url: "https://mikanani.me/RSS/Bangumi?bangumiId=2739&subgroupid=12".to_string(),
            cid: None,
            filter: Some("/简体|1080p/".to_string()),
            expiration: None,
        }],
    );
    d.insert(
        "nyaa.si".to_string(),
        vec![RssConfig {
            name: "VCB-Studio".to_string(),
            url: "https://nyaa.si/?page=rss&u=VCB-Studio".to_string(),
            cid: Some("2479224057885794455".to_string()),
            filter: None,
            expiration: Some(3),
        }],
    );
    d
}

#[test]
fn configured_feed_gives_its_config() {
    let c = get_rss_config_by_url(&dict(), "https://nyaa.si/?page=rss&u=VCB-Studio").unwrap();
    assert_eq!(c.name, "VCB-Studio");
    assert_eq!(c.cid, Some("2479224057885794455".to_string()));
    assert_eq!(c.expiration, Some(3));
}

#[test]
fn unconfigured_feed_gets_default_config() {
    let c = get_rss_config_by_url(&dict(), "https://mikanani.me/RSS/Bangumi?bangumiId=1").unwrap();
    assert_eq!(c.url, "https://mikanani.me/RSS/Bangumi?bangumiId=1");
    assert_eq!(c.name, "");
    assert_eq!(c.cid, None);
    assert_eq!(c.filter, None);
}

#[test]
fn invalid_url_is_an_error() {
    assert_eq!(get_rss_config_by_url(&dict(), "not a url").unwrap_err(), ConfigError::InvalidUrl);
}

#[test]
fn feed_of_an_unlisted_host_gets_default_config() {
    let url = "https://share.dmhy.org/topics/rss/rss.xml?keyword=x";
    let c = get_rss_config_by_url(&dict(), url).unwrap();
    assert_eq!(c.url, url);
    assert_eq!(c.name, "");
    assert_eq!(c.cid, None);
    assert_eq!(c.filter, None);
    assert_eq!(c.expiration, None);
    assert_eq!(find_rss_config_by_url(&dict(), url).unwrap().unwrap().url, url);
}

#[test]
fn url_without_host_has_no_lookup() {
    assert!(find_rss_config_by_url(&dict(), "mailto:someone@example.com").is_none());
    assert!(find_rss_config_by_url(&dict(), "https://nyaa.si/?page=rss&u=VCB-Studio").is_some());
    assert!(matches!(find_rss_config_by_url(&dict(), "not a url"), Some(Err(ConfigError::InvalidUrl))));
}

#[test]
fn dict_lookup_by_host() {
    let d = dict();
    assert_eq!(d.get("nyaa.si").unwrap().len(), 1);
    assert!(d.get("sukebei.nyaa.si").is_none());
}

#[test]
fn insert_replaces_a_host() {
    let mut d = dict();
    d.insert("nyaa.si".to_string(), vec![]);
    assert_eq!(d.get("nyaa.si").unwrap().len(), 0);
    assert_eq!(d.get("mikanani.me").unwrap().len(), 1);
    assert_eq!(d.sites().len(), 2);
    assert!(RssDict::new().sites().is_empty());
}
