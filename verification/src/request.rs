//! How a request to a site is made: which host a URL names, which headers
//! and cookie the site's configuration asks for, whether the request goes
//! through the proxy, and which proxy that is.

use vstd::prelude::*;
use std::path::PathBuf;
use crate::text::opt_view;
use crate::json::{get_member, lemma_member_from_index, is_set, member, parse_json, parsed_json, Json, JsonV};

verus! {

/// What `url` makes of a URL: `None` when `Url::parse` refuses it, else
/// the parsed URL's `host_str`.
pub uninterp spec fn parsed_url_host(url: Seq<char>) -> Option<Option<Seq<char>>>;

/// An optional optional string as character sequences.
pub open spec fn opt_opt_view(o: Option<Option<String>>) -> Option<Option<Seq<char>>> {
    match o {
        Some(Some(s)) => Some(Some(s@)),
        Some(None) => Some(None),
        None => None,
    }
}

/// The host of a URL, when it parses and has one.
pub open spec fn host_of(url: Seq<char>) -> Option<Seq<char>> {
    match parsed_url_host(url) {
        Some(Some(h)) => Some(h),
        _ => None,
    }
}

/// `url`: `Url::parse(url)` and, when it parses, `host_str()` of the
/// result. The outcome depends on the text of the URL alone; it is named,
/// not described.
#[verifier::external_body]
pub(crate) fn parse_url_host(url: &str) -> (res: Option<Option<String>>)
    ensures
        opt_opt_view(res) == parsed_url_host(url@),
{
    match url::Url::parse(url) {
        Ok(parsed) => Some(parsed.host_str().map(String::from)),
        Err(_) => None,
    }
}

/// The host that a URL names, when it parses and names one.
pub fn url_host(url: &str) -> (host: Option<String>)
    ensures
        match host {
            Some(h) => host_of(url@) == Some(h@),
            None => host_of(url@) is None,
        },
{
    match parse_url_host(url) {
        Some(Some(h)) => Some(h),
        _ => None,
    }
}


// ---------------------------------------------------------------- proxy

/// The proxy that requests marked `httpsAgent` go through: `ALL_PROXY`
/// when it is set, else `HTTPS_PROXY`, else a local default.
pub open spec fn proxy_url_spec(all_proxy: Option<Seq<char>>, https_proxy: Option<Seq<char>>) -> Seq<char> {
    match all_proxy {
        Some(p) => p,
        None => match https_proxy {
            Some(p) => p,
            None => "http://127.0.0.1:10809"@,
        },
    }
}

/// The proxy url, from the values of `ALL_PROXY` and `HTTPS_PROXY`.
pub fn choose_proxy_url(all_proxy: Option<String>, https_proxy: Option<String>) -> (url: String)
    ensures
        url@ == proxy_url_spec(opt_view(all_proxy), opt_view(https_proxy)),
{
    match all_proxy {
        Some(p) => p,
        None => match https_proxy {
            Some(p) => p,
            None => String::from_str("http://127.0.0.1:10809"),
        },
    }
}

// ---------------------------------------------------------------- cookies

#[verifier::external_type_specification]
#[verifier::external_body]
pub struct ExPathBuf(PathBuf);

/// Where the cookies of the browser come from.
#[derive(Clone)]
pub struct CookieConfig {
    chrome: Option<String>,
    chrome_path: Option<PathBuf>,
    firefox_path: Option<PathBuf>,
}

/// Where to read a site's cookie.
pub enum CookieSource<'a> {
    /// The Firefox profile at this path.
    Firefox(&'a PathBuf),
    /// The Chrome-like browser of this name, with this user data path.
    Chrome(Option<&'a str>, Option<&'a PathBuf>),
}

impl Default for CookieConfig {
    fn default() -> (c: Self)
        ensures
            c.chrome() is None && c.chrome_path() is None && c.firefox_path() is None,
    {
        CookieConfig { chrome: None, chrome_path: None, firefox_path: None }
    }
}

impl CookieConfig {
    /// The browser's name.
    pub closed spec fn chrome(&self) -> Option<String> {
        self.chrome
    }

    /// The browser's user data path.
    pub closed spec fn chrome_path(&self) -> Option<PathBuf> {
        self.chrome_path
    }

    /// The Firefox profile path.
    pub closed spec fn firefox_path(&self) -> Option<PathBuf> {
        self.firefox_path
    }

    /// A cookie configuration from the command line's browser name,
    /// browser data path and Firefox profile path.
    pub fn new(chrome: Option<String>, chrome_path: Option<PathBuf>, firefox_path: Option<PathBuf>) -> (c: Self)
        ensures
            c.chrome() == chrome,
            c.chrome_path() == chrome_path,
            c.firefox_path() == firefox_path,
    {
        CookieConfig { chrome, chrome_path, firefox_path }
    }

    /// Where to read cookies: the Firefox profile when one is given, else
    /// the Chrome-like browser.
    pub fn cookie_source(&self) -> (s: CookieSource<'_>)
        ensures
            match self.firefox_path() {
                Some(p) => s == CookieSource::Firefox(&p),
                None => s matches CookieSource::Chrome(name, path) && opt_str_view(name) == opt_view(
                    self.chrome(),
                ) && path == match self.chrome_path() {
                    Some(p) => Some(&p),
                    None => None::<&PathBuf>,
                },
            },
    {
        match &self.firefox_path {
            Some(p) => CookieSource::Firefox(p),
            None => {
                let name = match &self.chrome {
                    Some(c) => Some(c.as_str()),
                    None => None,
                };
                let path = match &self.chrome_path {
                    Some(p) => Some(p),
                    None => None,
                };
                CookieSource::Chrome(name, path)
            },
        }
    }
}

/// An optional str as an optional character sequence.
pub open spec fn opt_str_view(o: Option<&str>) -> Option<Seq<char>> {
    match o {
        Some(s) => Some(s@),
        None => None,
    }
}

// ---------------------------------------------------------------- site configs

/// What a request reads of a site's entry in `node-site-config.json`.
pub struct SiteConfig {
    /// The site has an entry.
    pub present: bool,
    /// The entry's `headers` when they are an object: each header with its
    /// value when the value is a string.
    pub headers: Option<Vec<(String, Option<String>)>>,
    /// The headers set `cookie`.
    pub cookie_set: bool,
    /// The entry sets `httpsAgent`: requests go through the proxy.
    pub https_agent: bool,
}

/// How to make a request.
pub struct RequestPlan {
    /// The headers to send.
    pub headers: Vec<(String, String)>,
    /// Whether to add the browser's cookie for the site.
    pub fetch_cookie: bool,
    /// Whether to go through the proxy.
    pub use_proxy: bool,
}

/// A site's entry as character sequences: whether it exists, its headers
/// (each value when it is a string), whether the headers set `cookie`, and
/// whether it sets `httpsAgent`.
pub struct SiteEntry {
    pub present: bool,
    pub headers: Option<Seq<(Seq<char>, Option<Seq<char>>)>>,
    pub cookie_set: bool,
    pub https_agent: bool,
}

/// What a request reads of a site's entry.
pub open spec fn site_entry(config: SiteConfig) -> SiteEntry {
    SiteEntry {
        present: config.present,
        headers: match config.headers {
            Some(hs) => Some(hs@.map_values(|h: (String, Option<String>)| (h.0@, opt_view(h.1)))),
            None => None,
        },
        cookie_set: config.cookie_set,
        https_agent: config.https_agent,
    }
}

/// Every header of the entry has a string value.
pub open spec fn entry_headers_are_strings(e: SiteEntry) -> bool {
    e.headers matches Some(hs) ==> forall|i: int| 0 <= i < hs.len() ==> (#[trigger] hs[i]).1 is Some
}

/// The headers of the entry, each with its value.
pub open spec fn entry_headers(e: SiteEntry) -> Seq<(Seq<char>, Seq<char>)> {
    match e.headers {
        Some(hs) => hs.map_values(|h: (Seq<char>, Option<Seq<char>>)| (h.0, h.1.unwrap())),
        None => Seq::empty(),
    }
}

/// Every configured header has a string value.
pub open spec fn headers_are_strings(config: SiteConfig) -> bool {
    entry_headers_are_strings(site_entry(config))
}

/// The configured headers, each with its value.
pub open spec fn configured_headers(config: SiteConfig) -> Seq<(Seq<char>, Seq<char>)> {
    entry_headers(site_entry(config))
}

/// The header pairs as character sequences.
pub open spec fn header_pairs(hs: Seq<(String, String)>) -> Seq<(Seq<char>, Seq<char>)> {
    hs.map_values(|h: (String, String)| (h.0@, h.1@))
}

fn plan_headers(config: &SiteConfig) -> (hs: Vec<(String, String)>)
    requires
        headers_are_strings(*config),
    ensures
        header_pairs(hs@) == configured_headers(*config),
{
    let mut out: Vec<(String, String)> = Vec::new();
    match &config.headers {
        None => {
            assert(header_pairs(out@) =~= configured_headers(*config));
        },
        Some(hs) => {
            let n = hs.len();
            let mut i: usize = 0;
            while i < n
                invariant
                    n == hs@.len(),
                    i <= n,
                    config.headers == Some(*hs),
                    headers_are_strings(*config),
                    header_pairs(out@) == configured_headers(*config).take(i as int),
                decreases n - i,
            {
                assert(site_entry(*config).headers == Some(
                    hs@.map_values(|h: (String, Option<String>)| (h.0@, opt_view(h.1))),
                ));
                assert(site_entry(*config).headers.unwrap()[i as int].1 is Some);
                assert((hs@[i as int]).1 is Some);
                let value = match &hs[i].1 {
                    Some(v) => v.clone(),
                    None => String::new(),
                };
                let ghost before = out@;
                let key = hs[i].0.clone();
                out.push((key, value));
                proof {
                    let c = configured_headers(*config);
                    assert(c[i as int] == (hs@[i as int].0@, hs@[i as int].1.unwrap()@));
                    assert(c.take(i + 1) =~= c.take(i as int).push(c[i as int]));
                    assert(header_pairs(out@) =~= header_pairs(before).push((key@, value@)));
                    assert(header_pairs(out@) =~= configured_headers(*config).take(i + 1));
                }
                i += 1;
            }
            assert(configured_headers(*config).take(n as int) =~= configured_headers(*config));
        },
    }
    out
}

/// How to request a URL of a site: the site's configured headers; the
/// browser's cookie when the site configures headers without a `cookie`;
/// the proxy when the site sets `httpsAgent`.
pub fn gen_req_plan(config: &SiteConfig) -> (plan: RequestPlan)
    requires
        headers_are_strings(*config),
    ensures
        header_pairs(plan.headers@) == configured_headers(*config),
        plan.fetch_cookie == (config.headers is Some && !config.cookie_set),
        plan.use_proxy == config.https_agent,
{
    RequestPlan {
        headers: plan_headers(config),
        fetch_cookie: config.headers.is_some() && !config.cookie_set,
        use_proxy: config.https_agent,
    }
}

/// How to request a URL on behalf of a named host: the host's configured
/// headers; the browser's cookie unless the host configures a `cookie`
/// header; the proxy when the host sets `httpsAgent`.
pub fn gen_req_host_plan(config: &SiteConfig) -> (plan: RequestPlan)
    requires
        headers_are_strings(*config),
    ensures
        header_pairs(plan.headers@) == configured_headers(*config),
        plan.fetch_cookie == (!config.present || !config.cookie_set),
        plan.use_proxy == config.https_agent,
{
    RequestPlan {
        headers: plan_headers(config),
        fetch_cookie: !config.present || !config.cookie_set,
        use_proxy: config.https_agent,
    }
}

// ---------------------------------------------------------------- the site configuration file

/// A header value: the text of a string, nothing for any other value.
pub open spec fn header_value(v: JsonV) -> Option<Seq<char>> {
    match v {
        JsonV::Str(s) => Some(s),
        _ => None,
    }
}

/// The entry of the site `host` in the site configuration `root`, read as
/// a request reads it: `root[host]` is present when it is not null; its
/// `headers` member, when that is an object, gives the headers; the
/// headers set a cookie when `headers["cookie"]` is not null; the entry
/// asks for the proxy when its `httpsAgent` member is not null.
pub open spec fn site_entry_of(root: JsonV, host: Seq<char>) -> SiteEntry {
    let entry = member(root, host);
    let headers = member(entry, "headers"@);
    SiteEntry {
        present: !(entry is Null),
        headers: match headers {
            JsonV::Obj(ms) => Some(ms.map_values(|m: (Seq<char>, JsonV)| (m.0, header_value(m.1)))),
            _ => None,
        },
        cookie_set: !(member(headers, "cookie"@) is Null),
        https_agent: !(member(entry, "httpsAgent"@) is Null),
    }
}

/// A site whose entry has headers is present, and one whose headers set a
/// cookie has headers.
pub proof fn lemma_site_entry_shape(root: JsonV, host: Seq<char>)
    ensures
        site_entry_of(root, host).headers is Some ==> site_entry_of(root, host).present,
        site_entry_of(root, host).cookie_set ==> site_entry_of(root, host).headers is Some,
{
}

/// A host whose headers set a cookie is asked for with its configured
/// headers, that cookie among them when it is a string, and the browser's
/// cookie is not read for it.
pub proof fn lemma_configured_cookie_skips_browser(
    text: Seq<char>,
    host: Seq<char>,
    r: Result<RequestPlan, SiteConfigError>,
)
    requires
        site_plan_outcome(text, host, true, r),
        parsed_json(text) matches Some(root) && !(member(
            member(member(root, host), "headers"@),
            "cookie"@,
        ) is Null),
    ensures
        r matches Ok(plan) ==> !plan.fetch_cookie,
        r matches Ok(plan) ==> (parsed_json(text) matches Some(root) && member(
            member(member(root, host), "headers"@),
            "cookie"@,
        ) matches JsonV::Str(c) ==> header_pairs(plan.headers@).contains(("cookie"@, c))),
{
    let root = parsed_json(text).unwrap();
    let headers = member(member(root, host), "headers"@);
    let e = site_entry_of(root, host);
    lemma_site_entry_shape(root, host);
    if let Ok(plan) = r {
        if let JsonV::Str(c) = member(headers, "cookie"@) {
            let ms = match headers {
                JsonV::Obj(ms) => ms,
                _ => Seq::empty(),
            };
            lemma_member_from_index(ms, "cookie"@, 0);
            let i = choose|i: int| 0 <= i < ms.len() && #[trigger] ms[i] == ("cookie"@, JsonV::Str(c));
            let hs = e.headers.unwrap();
            assert(hs[i] == ("cookie"@, Some(c)));
            assert(entry_headers(e)[i] == ("cookie"@, c));
            assert(header_pairs(plan.headers@)[i] == ("cookie"@, c));
        }
    }
}

/// What a request reads of the entry of the site `host` in the site
/// configuration `root`.
pub fn site_config_of(root: &Json, host: &str) -> (c: SiteConfig)
    ensures
        site_entry(c) == site_entry_of(root@, host@),
{
    let entry = get_member(root, host);
    let present = is_set(entry);
    let (headers_json, agent) = match entry {
        Some(e) => (get_member(e, "headers"), get_member(e, "httpsAgent")),
        None => (None, None),
    };
    let cookie = match headers_json {
        Some(h) => get_member(h, "cookie"),
        None => None,
    };
    let mut headers: Option<Vec<(String, Option<String>)>> = None;
    if let Some(Json::Obj(ms)) = headers_json {
        let ghost vs = match headers_json.unwrap()@ {
            JsonV::Obj(vs) => vs,
            _ => Seq::empty(),
        };
        let n = ms.len();
        let mut out: Vec<(String, Option<String>)> = Vec::new();
        let mut i: usize = 0;
        while i < n
            invariant
                n == ms@.len(),
                vs.len() == n,
                i <= n,
                headers_json.unwrap()@ == JsonV::Obj(vs),
                *headers_json.unwrap() == Json::Obj(*ms),
                out@.len() == i,
                forall|j: int|
                    0 <= j < i ==> (#[trigger] out@[j]).0@ == vs[j].0 && opt_view(out@[j].1)
                        == header_value(vs[j].1),
            decreases n - i,
        {
            assert(vs[i as int] == (ms@[i as int].0@, ms@[i as int].1@));
            let value = match &ms[i].1 {
                Json::Str(v) => Some(v.clone()),
                _ => None,
            };
            out.push((ms[i].0.clone(), value));
            i += 1;
        }
        proof {
            assert(out@.map_values(|h: (String, Option<String>)| (h.0@, opt_view(h.1))) =~= vs.map_values(
                |m: (Seq<char>, JsonV)| (m.0, header_value(m.1)),
            ));
        }
        headers = Some(out);
    }
    let c = SiteConfig { present, headers, cookie_set: is_set(cookie), https_agent: is_set(agent) };
    proof {
        reveal_strlit("headers");
        assert(site_entry(c).headers == site_entry_of(root@, host@).headers);
    }
    c
}

/// Why no request plan can be made from the site configuration.
#[derive(Debug, Clone, Copy, PartialEq, Eq)]
pub enum SiteConfigError {
    /// The configuration is not JSON.
    InvalidJson,
    /// A header of the site has a value that is not a string.
    HeaderNotString,
}

/// The plan follows the site's entry: its headers; the browser's cookie,
/// for a request on behalf of a named host (`by_host`) unless the entry
/// sets a `cookie` header, else only when the entry has headers without a
/// `cookie`; the proxy when the entry sets `httpsAgent`.
pub open spec fn plan_fits(e: SiteEntry, by_host: bool, plan: RequestPlan) -> bool {
    &&& header_pairs(plan.headers@) == entry_headers(e)
    &&& plan.fetch_cookie == if by_host {
        !e.present || !e.cookie_set
    } else {
        e.headers is Some && !e.cookie_set
    }
    &&& plan.use_proxy == e.https_agent
}

/// What the plan for `host` is, from the text of the site configuration.
pub open spec fn site_plan_outcome(
    text: Seq<char>,
    host: Seq<char>,
    by_host: bool,
    r: Result<RequestPlan, SiteConfigError>,
) -> bool {
    match parsed_json(text) {
        None => r == Err::<RequestPlan, SiteConfigError>(SiteConfigError::InvalidJson),
        Some(root) => {
            let e = site_entry_of(root, host);
            if entry_headers_are_strings(e) {
                r matches Ok(plan) && plan_fits(e, by_host, plan)
            } else {
                r == Err::<RequestPlan, SiteConfigError>(SiteConfigError::HeaderNotString)
            }
        },
    }
}

fn site_plan(text: &str, host: &str, by_host: bool) -> (r: Result<RequestPlan, SiteConfigError>)
    ensures
        site_plan_outcome(text@, host@, by_host, r),
{
    let root = match parse_json(text) {
        Some(j) => j,
        None => return Err(SiteConfigError::InvalidJson),
    };
    let config = site_config_of(&root, host);
    if let Some(hs) = &config.headers {
        let n = hs.len();
        let mut i: usize = 0;
        while i < n
            invariant
                n == hs@.len(),
                i <= n,
                config.headers == Some(*hs),
                parsed_json(text@) == Some(root@),
                site_entry(config) == site_entry_of(root@, host@),
                forall|j: int| 0 <= j < i ==> (#[trigger] hs@[j]).1 is Some,
            decreases n - i,
        {
            if hs[i].1.is_none() {
                proof {
                    let e = site_entry(config);
                    assert(e.headers.unwrap()[i as int].1 is None);
                }
                return Err(SiteConfigError::HeaderNotString);
            }
            i += 1;
        }
        proof {
            let e = site_entry(config);
            assert forall|j: int| 0 <= j < e.headers.unwrap().len() implies (#[trigger] e.headers.unwrap()[j]).1 is Some by {
                assert(hs@[j].1 is Some);
            }
        }
    }
    if by_host {
        Ok(gen_req_host_plan(&config))
    } else {
        Ok(gen_req_plan(&config))
    }
}

/// How to request a URL of the site `host`, from the text of the site
/// configuration (`node-site-config.json`): an error when the text is not
/// JSON or a header of the site is not a string.
pub fn site_request_plan(text: &str, host: &str) -> (r: Result<RequestPlan, SiteConfigError>)
    ensures
        site_plan_outcome(text@, host@, false, r),
{
    site_plan(text, host, false)
}

/// How to request a URL on behalf of the named host `host`, from the text
/// of the site configuration: an error when the text is not JSON or a
/// header of the host is not a string.
pub fn site_host_request_plan(text: &str, host: &str) -> (r: Result<RequestPlan, SiteConfigError>)
    ensures
        site_plan_outcome(text@, host@, true, r),
{
    site_plan(text, host, true)
}

} // verus!
