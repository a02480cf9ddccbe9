use rss2pan::json::{get_member, is_set, Json};
use std::path::PathBuf;
use rss2pan::request::{
    choose_proxy_url, gen_req_host_plan, gen_req_plan, site_host_request_plan, site_request_plan,
    url_host, CookieConfig, CookieSource, SiteConfig, SiteConfigError,
};

#[test]
fn hosts_of_urls() {
    assert_eq!(url_host("https://mikanani.me/RSS/Bangumi?bangumiId=2739"), Some("mikanani.me".to_string()));
    assert_eq!(url_host("https://115.com/?ct=offline&ac=space"), Some("115.com".to_string()));
    assert_eq!(url_host("not a url"), None);
    assert_eq!(url_host("mailto:a@b.c"), None);
}

#[test]
fn proxy_choice() {
    assert_eq!(choose_proxy_url(Some("http://a:1".into()), Some("http://b:2".into())), "http://a:1");
    assert_eq!(choose_proxy_url(None, Some("http://b:2".into())), "http://b:2");
    assert_eq!(choose_proxy_url(None, None), "http://127.0.0.1:10809");
}

#[test]
fn cookie_sources() {
    let c = CookieConfig::new(Some("Edge".into()), None, Some(PathBuf::from("/ff")));
    assert!(matches!(c.cookie_source(), CookieSource::Firefox(p) if p == &PathBuf::from("/ff")));
    let c = CookieConfig::new(Some("Edge".into()), Some(PathBuf::from("/data")), None);
    assert!(matches!(c.cookie_source(), CookieSource::Chrome(Some("Edge"), Some(p)) if p == &PathBuf::from("/data")));
    let c = CookieConfig::default();
    assert!(matches!(c.cookie_source(), CookieSource::Chrome(None, None)));
}

#[test]
fn request_plans() {
    let with_headers = SiteConfig {
        present: true,
        headers: Some(vec![("Referer".into(), Some("https://mikanani.me/".into()))]),
        cookie_set: false,
        https_agent: true,
    };
    let p = gen_req_plan(&with_headers);
    assert_eq!(p.headers, vec![("Referer".to_string(), "https://mikanani.me/".to_string())]);
    assert!(p.fetch_cookie);
    assert!(p.use_proxy);
    let agent_only = SiteConfig { present: true, headers: None, cookie_set: false, https_agent: true };
    let p = gen_req_plan(&agent_only);
    assert!(p.headers.is_empty());
    assert!(!p.fetch_cookie);
    let p = gen_req_host_plan(&agent_only);
    assert!(p.fetch_cookie);
    let absent = SiteConfig { present: false, headers: None, cookie_set: false, https_agent: false };
    let p = gen_req_host_plan(&absent);
    assert!(p.fetch_cookie);
    assert!(!p.use_proxy);
    let cookie = SiteConfig {
        present: true,
        headers: Some(vec![("cookie".into(), Some("UID=1".into()))]),
        cookie_set: true,
        https_agent: false,
    };
    assert!(!gen_req_plan(&cookie).fetch_cookie);
    assert!(!gen_req_host_plan(&cookie).fetch_cookie);
}

const SITES: &str = r#"{
  "share.dmhy.org": { "httpsAgent": "httpsAgent" },
  "mikanani.me": { "httpsAgent": "httpsAgent", "headers": { "Referer": "https://mikanani.me/" } },
  "115.com": { "headers": { "cookie": "UID=1" } },
  "off.example": { "httpsAgent": null },
  "bad.example": { "headers": { "X-Count": 1 } }
}"#;

#[test]
fn plans_from_the_site_configuration() {
    let p = site_request_plan(SITES, "mikanani.me").unwrap();
    assert_eq!(p.headers, vec![("Referer".to_string(), "https://mikanani.me/".to_string())]);
    assert!(p.fetch_cookie);
    assert!(p.use_proxy);
    let p = site_request_plan(SITES, "share.dmhy.org").unwrap();
    assert!(p.headers.is_empty());
    assert!(!p.fetch_cookie);
    assert!(p.use_proxy);
    let p = site_host_request_plan(SITES, "115.com").unwrap();
    assert_eq!(p.headers, vec![("cookie".to_string(), "UID=1".to_string())]);
    assert!(!p.fetch_cookie);
    assert!(!p.use_proxy);
    let p = site_host_request_plan(SITES, "nyaa.si").unwrap();
    assert!(p.fetch_cookie);
    assert!(!p.use_proxy);
    let p = site_request_plan(SITES, "nyaa.si").unwrap();
    assert!(!p.fetch_cookie);
    assert!(!site_request_plan(SITES, "off.example").unwrap().use_proxy);
    assert!(site_host_request_plan("{}", "115.com").unwrap().fetch_cookie);
}

#[test]
fn site_configuration_errors() {
    assert_eq!(site_request_plan("not json", "mikanani.me").err(), Some(SiteConfigError::InvalidJson));
    assert_eq!(site_request_plan(SITES, "bad.example").err(), Some(SiteConfigError::HeaderNotString));
    assert_eq!(site_host_request_plan(SITES, "bad.example").err(), Some(SiteConfigError::HeaderNotString));
    assert!(site_request_plan("[]", "mikanani.me").is_ok());
}

#[test]
fn json_members() {
    let v = Json::Obj(vec![
        ("a".to_string(), Json::Null),
        ("b".to_string(), Json::Str("x".to_string())),
    ]);
    assert!(get_member(&v, "a").is_some());
    assert!(!is_set(get_member(&v, "a")));
    assert!(is_set(get_member(&v, "b")));
    assert!(get_member(&v, "c").is_none());
    assert!(get_member(&Json::Arr(vec![]), "a").is_none());
}
