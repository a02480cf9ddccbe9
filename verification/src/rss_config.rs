//! The subscriptions of `rss.json`: per site, the feeds to follow, each
//! with an optional folder id and title filter.

use vstd::prelude::*;
use crate::request::{parse_url_host, parsed_url_host};
use crate::text::{clone_opt_string, str_eq};

verus! {

/// One subscribed feed.
#[derive(Debug, Clone)]
pub struct RssConfig {
    pub name: String,
    pub url: String,
    /// The 115 folder to download into; the default folder when absent.
    pub cid: Option<String>,
    /// A text the title must contain, or a `/regex/` it must match.
    pub filter: Option<String>,
    pub expiration: Option<u8>,
}

/// A config with every field empty.
pub open spec fn is_empty_config(c: RssConfig) -> bool {
    &&& c.name@ == Seq::<char>::empty()
    &&& c.url@ == Seq::<char>::empty()
    &&& c.cid is None
    &&& c.filter is None
    &&& c.expiration is None
}

impl Default for RssConfig {
    fn default() -> (c: Self)
        ensures
            is_empty_config(c),
    {
        RssConfig {
            name: String::new(),
            url: String::new(),
            cid: None,
            filter: None,
            expiration: None,
        }
    }
}

impl RssConfig {
    /// A copy of this config.
    pub fn duplicate(&self) -> (c: Self)
        ensures
            c == *self,
    {
        RssConfig {
            name: self.name.clone(),
            url: self.url.clone(),
            cid: clone_opt_string(&self.cid),
            filter: clone_opt_string(&self.filter),
            expiration: self.expiration,
        }
    }
}

/// The feeds of each site, keyed by host name; a host occurs at most once.
pub struct RssDict {
    sites: Vec<(String, Vec<RssConfig>)>,
}

/// The feeds listed under `host`: those of the entry with that host.
pub open spec fn site_configs(sites: Seq<(String, Vec<RssConfig>)>, host: Seq<char>) -> Option<Seq<RssConfig>>
    decreases sites.len(),
{
    if sites.len() == 0 {
        None
    } else if sites[0].0@ == host {
        Some(sites[0].1@)
    } else {
        site_configs(sites.drop_first(), host)
    }
}

/// No host occurs twice.
pub open spec fn distinct_hosts(sites: Seq<(String, Vec<RssConfig>)>) -> bool {
    forall|i: int, j: int|
        0 <= i < sites.len() && 0 <= j < sites.len() && i != j ==> #[trigger] sites[i].0@
            != #[trigger] sites[j].0@
}

/// A host that no entry has lists no feeds.
proof fn lemma_site_configs_absent(sites: Seq<(String, Vec<RssConfig>)>, host: Seq<char>)
    requires
        forall|i: int| 0 <= i < sites.len() ==> #[trigger] sites[i].0@ != host,
    ensures
        site_configs(sites, host) is None,
    decreases sites.len(),
{
    if sites.len() > 0 {
        let rest = sites.drop_first();
        assert(sites[0].0@ != host);
        assert forall|i: int| 0 <= i < rest.len() implies #[trigger] rest[i].0@ != host by {
            assert(rest[i] == sites[i + 1]);
        }
        lemma_site_configs_absent(rest, host);
    }
}

/// The feeds of a host are those of its entry.
proof fn lemma_site_configs_at(sites: Seq<(String, Vec<RssConfig>)>, host: Seq<char>, k: int)
    requires
        distinct_hosts(sites),
        0 <= k < sites.len(),
        sites[k].0@ == host,
    ensures
        site_configs(sites, host) == Some(sites[k].1@),
    decreases sites.len(),
{
    if k > 0 {
        let rest = sites.drop_first();
        assert(sites[0].0@ != sites[k].0@);
        assert(distinct_hosts(rest)) by {
            assert forall|i: int, j: int|
                0 <= i < rest.len() && 0 <= j < rest.len() && i != j implies #[trigger] rest[i].0@
                != #[trigger] rest[j].0@ by {
                assert(rest[i] == sites[i + 1] && rest[j] == sites[j + 1]);
            }
        }
        assert(rest[k - 1] == sites[k]);
        lemma_site_configs_at(rest, host, k - 1);
    }
}

/// The feeds of `host` in two lists of entries agree when the entries of
/// that host agree.
proof fn lemma_site_configs_same(
    a: Seq<(String, Vec<RssConfig>)>,
    b: Seq<(String, Vec<RssConfig>)>,
    host: Seq<char>,
    skip: int,
)
    requires
        distinct_hosts(a),
        distinct_hosts(b),
        a.len() <= b.len(),
        0 <= skip <= a.len(),
        forall|i: int| 0 <= i < a.len() && i != skip ==> #[trigger] b[i] == a[i],
        forall|i: int| a.len() <= i < b.len() ==> #[trigger] b[i].0@ != host,
        skip < a.len() ==> a[skip].0@ != host && b[skip].0@ != host,
    ensures
        site_configs(b, host) == site_configs(a, host),
{
    if exists|k: int| 0 <= k < a.len() && #[trigger] a[k].0@ == host {
        let k = choose|k: int| 0 <= k < a.len() && #[trigger] a[k].0@ == host;
        lemma_site_configs_at(a, host, k);
        assert(b[k] == a[k]);
        lemma_site_configs_at(b, host, k);
    } else {
        lemma_site_configs_absent(a, host);
        assert forall|i: int| 0 <= i < b.len() implies #[trigger] b[i].0@ != host by {
            if i < a.len() && i != skip {
                assert(b[i] == a[i]);
                assert(a[i].0@ != host);
            }
        }
        lemma_site_configs_absent(b, host);
    }
}

/// The first of `configs` whose url is `url`.
pub open spec fn find_config(configs: Seq<RssConfig>, url: Seq<char>) -> Option<RssConfig>
    decreases configs.len(),
{
    if configs.len() == 0 {
        None
    } else if configs[0].url@ == url {
        Some(configs[0])
    } else {
        find_config(configs.drop_first(), url)
    }
}

/// Why a feed url has no config.
#[derive(Debug, Clone, Copy, PartialEq, Eq)]
pub enum ConfigError {
    /// The url does not parse.
    InvalidUrl,
}

impl RssDict {
    #[verifier::type_invariant]
    spec fn hosts_distinct(&self) -> bool {
        distinct_hosts(self.sites@)
    }

    /// The feeds listed under `host`, if the dict has that host.
    pub closed spec fn configs_of(&self, host: Seq<char>) -> Option<Seq<RssConfig>> {
        site_configs(self.sites@, host)
    }

    /// No site.
    pub fn new() -> (d: Self)
        ensures
            forall|h: Seq<char>| #[trigger] d.configs_of(h) is None,
    {
        RssDict { sites: Vec::new() }
    }

    /// Lists `configs` under `host`, in place of what `host` listed.
    pub fn insert(&mut self, host: String, configs: Vec<RssConfig>)
        ensures
            forall|h: Seq<char>|
                #[trigger] final(self).configs_of(h) == if h == host@ {
                    Some(configs@)
                } else {
                    old(self).configs_of(h)
                },
    {
        proof {
            use_type_invariant(&*self);
        }
        let ghost old_sites = self.sites@;
        let mut sites: Vec<(String, Vec<RssConfig>)> = Vec::new();
        std::mem::swap(&mut sites, &mut self.sites);
        let n = sites.len();
        let mut i: usize = 0;
        while i < n
            invariant
                n == sites@.len(),
                sites@ == old_sites,
                distinct_hosts(old_sites),
                forall|h: Seq<char>| #[trigger] old(self).configs_of(h) == site_configs(old_sites, h),
                i <= n,
                forall|j: int| 0 <= j < i ==> #[trigger] old_sites[j].0@ != host@,
            decreases n - i,
        {
            if str_eq(sites[i].0.as_str(), host.as_str()) {
                let ghost k = i as int;
                let ghost key = host@;
                sites.set(i, (host, configs));
                proof {
                    let new_sites = sites@;
                    assert(new_sites == old_sites.update(k, new_sites[k]));
                    assert(distinct_hosts(new_sites)) by {
                        assert forall|a: int, b: int|
                            0 <= a < new_sites.len() && 0 <= b < new_sites.len() && a != b implies #[trigger] new_sites[a].0@
                            != #[trigger] new_sites[b].0@ by {
                            assert(old_sites[a].0@ != old_sites[b].0@);
                        }
                    }
                    assert forall|h: Seq<char>|
                        #[trigger] site_configs(new_sites, h) == if h == key {
                            Some(configs@)
                        } else {
                            site_configs(old_sites, h)
                        } by {
                        if h == key {
                            lemma_site_configs_at(new_sites, h, k);
                        } else {
                            lemma_site_configs_same(old_sites, new_sites, h, k);
                        }
                    }
                }
                self.sites = sites;
                return;
            }
            i += 1;
        }
        let ghost key = host@;
        let ghost cv = configs@;
        sites.push((host, configs));
        proof {
            let new_sites = sites@;
            assert(distinct_hosts(new_sites)) by {
                assert forall|a: int, b: int|
                    0 <= a < new_sites.len() && 0 <= b < new_sites.len() && a != b implies #[trigger] new_sites[a].0@
                    != #[trigger] new_sites[b].0@ by {
                    if a < n && b < n {
                        assert(old_sites[a].0@ != old_sites[b].0@);
                    } else if a == n {
                        assert(old_sites[b].0@ != key);
                    } else {
                        assert(old_sites[a].0@ != key);
                    }
                }
            }
            assert forall|h: Seq<char>|
                #[trigger] site_configs(new_sites, h) == if h == key {
                    Some(cv)
                } else {
                    site_configs(old_sites, h)
                } by {
                if h == key {
                    lemma_site_configs_at(new_sites, h, n as int);
                } else {
                    lemma_site_configs_same(old_sites, new_sites, h, n as int);
                }
            }
        }
        self.sites = sites;
    }

    /// The sites with their feeds, each host once.
    pub fn sites(&self) -> (s: &Vec<(String, Vec<RssConfig>)>)
        ensures
            distinct_hosts(s@),
            forall|h: Seq<char>| #[trigger] site_configs(s@, h) == self.configs_of(h),
    {
        proof {
            use_type_invariant(self);
        }
        &self.sites
    }

    /// The feeds listed under `host`.
    pub fn get(&self, host: &str) -> (r: Option<&Vec<RssConfig>>)
        ensures
            match r {
                Some(v) => self.configs_of(host@) == Some(v@),
                None => self.configs_of(host@) is None,
            },
    {
        let n = self.sites.len();
        let mut i: usize = 0;
        assert(self.sites@.skip(0) =~= self.sites@);
        while i < n
            invariant
                n == self.sites@.len(),
                i <= n,
                site_configs(self.sites@, host@) == site_configs(self.sites@.skip(i as int), host@),
            decreases n - i,
        {
            proof {
                let rest = self.sites@.skip(i as int);
                assert(rest[0] == self.sites@[i as int]);
                assert(rest.drop_first() =~= self.sites@.skip(i + 1));
            }
            if str_eq(self.sites[i].0.as_str(), host) {
                return Some(&self.sites[i].1);
            }
            i += 1;
        }
        None
    }
}

/// Whether a config for `url` can be looked up without the lookup
/// panicking: every url that does not parse, and every url with a host.
pub open spec fn lookup_defined(url: Seq<char>) -> bool {
    !(parsed_url_host(url) matches Some(None))
}

/// The config that `dict` lists for the feed `url` under the host `host`.
pub open spec fn listed_config(dict: RssDict, host: Seq<char>, url: Seq<char>) -> Option<RssConfig> {
    match dict.configs_of(host) {
        Some(configs) => find_config(configs, url),
        None => None,
    }
}

/// What looking up the config of the feed `url` gives: an error when the
/// url does not parse; the config that `dict` lists for the url under its
/// host; when there is none (the host is not in `dict`, or its feeds do not
/// have the url), an empty config that has only the url, so that the feed
/// goes to the default folder unfiltered.
pub open spec fn rss_config_outcome(dict: RssDict, url: Seq<char>, r: Result<RssConfig, ConfigError>) -> bool {
    match parsed_url_host(url) {
        None => r == Err::<RssConfig, ConfigError>(ConfigError::InvalidUrl),
        Some(None) => false,
        Some(Some(h)) => match listed_config(dict, h, url) {
            Some(c) => r == Ok::<RssConfig, ConfigError>(c),
            None => r matches Ok(c) && c.url@ == url && c.name@ == Seq::<char>::empty()
                && c.cid is None && c.filter is None && c.expiration is None,
        },
    }
}

/// `find_config` finds the first config whose url is `url`.
proof fn lemma_find_config_first(configs: Seq<RssConfig>, url: Seq<char>, k: int)
    requires
        0 <= k < configs.len(),
        configs[k].url@ == url,
        forall|j: int| 0 <= j < k ==> #[trigger] configs[j].url@ != url,
    ensures
        find_config(configs, url) == Some(configs[k]),
    decreases k,
{
    if k > 0 {
        let rest = configs.drop_first();
        assert(configs[0].url@ != url);
        assert forall|j: int| 0 <= j < k - 1 implies #[trigger] rest[j].url@ != url by {
            assert(rest[j] == configs[j + 1]);
        }
        lemma_find_config_first(rest, url, k - 1);
    }
}

/// `find_config` finds nothing when no config has the url.
proof fn lemma_find_config_none(configs: Seq<RssConfig>, url: Seq<char>)
    requires
        forall|j: int| 0 <= j < configs.len() ==> #[trigger] configs[j].url@ != url,
    ensures
        find_config(configs, url) is None,
    decreases configs.len(),
{
    if configs.len() > 0 {
        let rest = configs.drop_first();
        assert(configs[0].url@ != url);
        assert forall|j: int| 0 <= j < rest.len() implies #[trigger] rest[j].url@ != url by {
            assert(rest[j] == configs[j + 1]);
        }
        lemma_find_config_none(rest, url);
    }
}

/// A feed listed in `dict` gets its listed config unchanged, every field
/// of it: the first config under the url's host whose url is the url.
pub proof fn lemma_listed_feed_gets_its_config(
    dict: RssDict,
    url: Seq<char>,
    host: Seq<char>,
    configs: Seq<RssConfig>,
    k: int,
    r: Result<RssConfig, ConfigError>,
)
    requires
        rss_config_outcome(dict, url, r),
        parsed_url_host(url) == Some(Some(host)),
        dict.configs_of(host) == Some(configs),
        0 <= k < configs.len(),
        configs[k].url@ == url,
        forall|j: int| 0 <= j < k ==> #[trigger] configs[j].url@ != url,
    ensures
        r == Ok::<RssConfig, ConfigError>(configs[k]),
{
    lemma_find_config_first(configs, url, k);
}

/// A feed that `dict` does not list (its host is absent, or no config of
/// the host has the url) gets the empty config with only the url; a url
/// that does not parse is an error.
pub proof fn lemma_unlisted_feed_gets_default_config(
    dict: RssDict,
    url: Seq<char>,
    r: Result<RssConfig, ConfigError>,
)
    requires
        rss_config_outcome(dict, url, r),
    ensures
        parsed_url_host(url) is None ==> r == Err::<RssConfig, ConfigError>(ConfigError::InvalidUrl),
        parsed_url_host(url) matches Some(Some(host)) && (forall|configs: Seq<RssConfig>|
            dict.configs_of(host) == Some(configs) ==> forall|j: int|
                0 <= j < configs.len() ==> #[trigger] configs[j].url@ != url) ==> (r matches Ok(c) && c.url@
            == url && c.name@ == Seq::<char>::empty() && c.cid is None && c.filter is None
            && c.expiration is None),
{
    if let Some(Some(host)) = parsed_url_host(url) {
        if let Some(configs) = dict.configs_of(host) {
            if forall|j: int| 0 <= j < configs.len() ==> #[trigger] configs[j].url@ != url {
                lemma_find_config_none(configs, url);
            }
        }
    }
}

/// The config of the feed `url`: the one that `dict` lists for it under
/// the url's host, or an empty config with the url when there is none.
pub fn get_rss_config_by_url(dict: &RssDict, url: &str) -> (r: Result<RssConfig, ConfigError>)
    requires
        lookup_defined(url@),
    ensures
        rss_config_outcome(*dict, url@, r),
{
    match parse_url_host(url) {
        None => Err(ConfigError::InvalidUrl),
        Some(None) => {
            proof {
                assert(false);
            }
            Err(ConfigError::InvalidUrl)
        },
        Some(Some(host)) => {
            if let Some(configs) = dict.get(host.as_str()) {
                let n = configs.len();
                let mut i: usize = 0;
                assert(configs@.skip(0) =~= configs@);
                while i < n
                    invariant
                        n == configs@.len(),
                        i <= n,
                        parsed_url_host(url@) == Some(Some(host@)),
                        dict.configs_of(host@) == Some(configs@),
                        find_config(configs@, url@) == find_config(configs@.skip(i as int), url@),
                    decreases n - i,
                {
                    proof {
                        let rest = configs@.skip(i as int);
                        assert(rest[0] == configs@[i as int]);
                        assert(rest.drop_first() =~= configs@.skip(i + 1));
                    }
                    if str_eq(configs[i].url.as_str(), url) {
                        return Ok(configs[i].duplicate());
                    }
                    i += 1;
                }
                proof {
                    assert(configs@.skip(n as int) =~= Seq::<RssConfig>::empty());
                }
            }
            let mut c = RssConfig::default();
            c.url = String::from_str(url);
            Ok(c)
        },
    }
}

/// The config of the feed `url`, or `None` when the url parses but has no
/// host.
pub fn find_rss_config_by_url(dict: &RssDict, url: &str) -> (r: Option<Result<RssConfig, ConfigError>>)
    ensures
        r is Some <==> lookup_defined(url@),
        r matches Some(x) ==> rss_config_outcome(*dict, url@, x),
{
    match parse_url_host(url) {
        Some(None) => None,
        _ => Some(get_rss_config_by_url(dict, url)),
    }
}

} // verus!
