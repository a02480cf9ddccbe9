//! Feed items of the supported sites, the magnet link of each item, and
//! the title filter of a subscription.

pub mod acgnx;
pub mod dmhy;
pub mod mikanani;
pub mod nyaa;

pub use acgnx::Acgnx;
pub use dmhy::Dmhy;
pub use mikanani::Mikanani;
pub use nyaa::Nyaa;

use vstd::prelude::*;
use crate::request::{parse_url_host, parsed_url_host};
use crate::rss_config::RssConfig;
use crate::text::{
    occurs_at, chars_end_with, chars_find, chars_start_with, clone_opt_string, ends_with, find,
    lemma_find_from, opt_view, starts_with, str_chars, str_eq, string_from_chars,
};

verus! {

/// What the library reads of an RSS item.
pub struct FeedItem {
    pub title: Option<String>,
    pub link: Option<String>,
    pub description: Option<String>,
    pub content: Option<String>,
    /// The url of the item's enclosure.
    pub enclosure_url: Option<String>,
    /// The item's extension elements: per namespace prefix, per element
    /// name, the value of each element (none when it has no text).
    pub extensions: Vec<(String, Vec<(String, Vec<Option<String>>)>)>,
}

/// Extension values as character sequences.
pub open spec fn values_view(vs: Seq<Option<String>>) -> Seq<Option<Seq<char>>> {
    vs.map_values(|v: Option<String>| opt_view(v))
}

/// Extension elements of one namespace as character sequences.
pub open spec fn names_view(ns: Seq<(String, Vec<Option<String>>)>) -> Seq<(Seq<char>, Seq<Option<Seq<char>>>)> {
    ns.map_values(|p: (String, Vec<Option<String>>)| (p.0@, values_view(p.1@)))
}

/// Extensions as character sequences.
pub open spec fn extensions_view(es: Seq<(String, Vec<(String, Vec<Option<String>>)>)>) -> Seq<(Seq<char>, Seq<(Seq<char>, Seq<Option<Seq<char>>>)>)> {
    es.map_values(|p: (String, Vec<(String, Vec<Option<String>>)>)| (p.0@, names_view(p.1@)))
}

/// The value under the first occurrence of `key`.
pub open spec fn first_value<V>(ps: Seq<(Seq<char>, V)>, key: Seq<char>) -> Option<V>
    decreases ps.len(),
{
    if ps.len() == 0 {
        None
    } else if ps[0].0 == key {
        Some(ps[0].1)
    } else {
        first_value(ps.drop_first(), key)
    }
}

/// The values of the extension elements `ns:name` of an item.
pub open spec fn extension_values(
    es: Seq<(Seq<char>, Seq<(Seq<char>, Seq<Option<Seq<char>>>)>)>,
    ns: Seq<char>,
    name: Seq<char>,
) -> Option<Seq<Option<Seq<char>>>> {
    match first_value(es, ns) {
        Some(names) => first_value(names, name),
        None => None,
    }
}

fn find_namespace<'a>(es: &'a Vec<(String, Vec<(String, Vec<Option<String>>)>)>, ns: &str) -> (r: Option<&'a Vec<(String, Vec<Option<String>>)>>)
    ensures
        match r {
            Some(v) => first_value(extensions_view(es@), ns@) == Some(names_view(v@)),
            None => first_value(extensions_view(es@), ns@) is None,
        },
{
    let n = es.len();
    let mut i: usize = 0;
    assert(extensions_view(es@).skip(0) =~= extensions_view(es@));
    while i < n
        invariant
            n == es@.len(),
            i <= n,
            first_value(extensions_view(es@), ns@) == first_value(extensions_view(es@).skip(i as int), ns@),
        decreases n - i,
    {
        proof {
            let rest = extensions_view(es@).skip(i as int);
            assert(rest[0] == extensions_view(es@)[i as int]);
            assert(rest.drop_first() =~= extensions_view(es@).skip(i + 1));
        }
        if str_eq(es[i].0.as_str(), ns) {
            return Some(&es[i].1);
        }
        i += 1;
    }
    proof {
        assert(extensions_view(es@).skip(n as int) =~= Seq::<(Seq<char>, Seq<(Seq<char>, Seq<Option<Seq<char>>>)>)>::empty());
    }
    None
}

fn find_name<'a>(names: &'a Vec<(String, Vec<Option<String>>)>, name: &str) -> (r: Option<&'a Vec<Option<String>>>)
    ensures
        match r {
            Some(v) => first_value(names_view(names@), name@) == Some(values_view(v@)),
            None => first_value(names_view(names@), name@) is None,
        },
{
    let n = names.len();
    let mut i: usize = 0;
    assert(names_view(names@).skip(0) =~= names_view(names@));
    while i < n
        invariant
            n == names@.len(),
            i <= n,
            first_value(names_view(names@), name@) == first_value(names_view(names@).skip(i as int), name@),
        decreases n - i,
    {
        proof {
            let rest = names_view(names@).skip(i as int);
            assert(rest[0] == names_view(names@)[i as int]);
            assert(rest.drop_first() =~= names_view(names@).skip(i + 1));
        }
        if str_eq(names[i].0.as_str(), name) {
            return Some(&names[i].1);
        }
        i += 1;
    }
    proof {
        assert(names_view(names@).skip(n as int) =~= Seq::<(Seq<char>, Seq<Option<Seq<char>>>)>::empty());
    }
    None
}

/// The value of the first `ns:name` extension element of an item.
pub fn first_extension_value(item: &FeedItem, ns: &str, name: &str) -> (r: Option<String>)
    ensures
        opt_view(r) == match extension_values(item@.extensions, ns@, name@) {
            Some(vs) => if vs.len() > 0 {
                vs[0]
            } else {
                None
            },
            None => None,
        },
{
    match find_namespace(&item.extensions, ns) {
        Some(names) => match find_name(names, name) {
            Some(vs) => {
                if vs.len() > 0 {
                    proof {
                        assert(values_view(vs@)[0] == opt_view(vs@[0]));
                    }
                    clone_opt_string(&vs[0])
                } else {
                    None
                }
            },
            None => None,
        },
        None => None,
    }
}

/// A feed item as character sequences.
pub struct FeedEntry {
    pub title: Option<Seq<char>>,
    pub link: Option<Seq<char>>,
    pub description: Option<Seq<char>>,
    pub content: Option<Seq<char>>,
    pub enclosure_url: Option<Seq<char>>,
    pub extensions: Seq<(Seq<char>, Seq<(Seq<char>, Seq<Option<Seq<char>>>)>)>,
}

impl View for FeedItem {
    type V = FeedEntry;

    open spec fn view(&self) -> FeedEntry {
        FeedEntry {
            title: opt_view(self.title),
            link: opt_view(self.link),
            description: opt_view(self.description),
            content: opt_view(self.content),
            enclosure_url: opt_view(self.enclosure_url),
            extensions: extensions_view(self.extensions@),
        }
    }
}

/// A feed item with its magnet link.
#[derive(Debug)]
pub struct MagnetItem {
    pub title: String,
    pub link: String,
    pub magnet: String,
    pub description: Option<String>,
    pub content: Option<String>,
}

/// A magnet item as character sequences.
pub struct MagnetEntry {
    pub title: Seq<char>,
    pub link: Seq<char>,
    pub magnet: Seq<char>,
    pub description: Option<Seq<char>>,
    pub content: Option<Seq<char>>,
}

impl View for MagnetItem {
    type V = MagnetEntry;

    open spec fn view(&self) -> MagnetEntry {
        MagnetEntry {
            title: self.title@,
            link: self.link@,
            magnet: self.magnet@,
            description: opt_view(self.description),
            content: opt_view(self.content),
        }
    }
}

/// The magnet item of a feed item: its title (empty when it has none),
/// link, description and content, with `magnet`.
pub open spec fn magnet_entry(item: FeedEntry, magnet: Seq<char>) -> MagnetEntry {
    MagnetEntry {
        title: match item.title {
            Some(t) => t,
            None => Seq::empty(),
        },
        link: item.link.unwrap(),
        magnet: magnet,
        description: item.description,
        content: item.content,
    }
}

/// `s` up to the first occurrence of `pat`; all of `s` when `pat` does not
/// occur.
pub open spec fn cut_before_spec(s: Seq<char>, pat: Seq<char>) -> Seq<char> {
    match find(s, pat) {
        Some(i) => s.take(i as int),
        None => s,
    }
}

/// `s` up to the first occurrence of `pat`.
pub fn cut_before(s: &str, pat: &str) -> (r: String)
    ensures
        r@ == cut_before_spec(s@, pat@),
{
    let chars = str_chars(s);
    let p = str_chars(pat);
    match chars_find(chars.as_slice(), p.as_slice()) {
        Some(i) => {
            proof {
                lemma_find_from(s@, pat@, 0);
                assert(chars@.subrange(0, i as int) =~= s@.take(i as int));
            }
            string_from_chars(&chars.as_slice()[0..i])
        },
        None => String::from_str(s),
    }
}

/// A site whose feed items carry magnet links.
pub trait MagnetSite {
    /// The items whose magnet link this site can give.
    spec fn accepts(&self, item: FeedEntry) -> bool;

    /// The magnet link of an item.
    spec fn magnet_of(&self, item: FeedEntry) -> Seq<char>;

    /// The magnet link of an item.
    fn get_magnet(&self, item: &FeedItem) -> (m: String)
        requires
            self.accepts(item@),
        ensures
            m@ == self.magnet_of(item@),
    ;

    /// The magnet item of a feed item that has a link.
    fn get_magnet_item(&self, item: &FeedItem) -> (m: MagnetItem)
        requires
            self.accepts(item@),
            item.link is Some,
        ensures
            m@ == magnet_entry(item@, self.magnet_of(item@)),
    {
        let magnet = self.get_magnet(item);
        let title = match &item.title {
            Some(t) => t.clone(),
            None => String::new(),
        };
        let link = match &item.link {
            Some(l) => l.clone(),
            None => String::new(),
        };
        MagnetItem {
            title,
            link,
            magnet,
            description: clone_opt_string(&item.description),
            content: clone_opt_string(&item.content),
        }
    }
}

impl MagnetItem {
    /// The magnet item of a mikanani.me feed item: its magnet link is made
    /// of the part of the link after `Episode/`.
    pub fn new(item: &FeedItem) -> (m: Self)
        requires
            Mikanani.accepts(item@),
        ensures
            m@ == magnet_entry(item@, Mikanani.magnet_of(item@)),
    {
        Mikanani.get_magnet_item(item)
    }
}

/// The sites that `get_site` knows.
#[derive(Debug, Clone, Copy, PartialEq, Eq)]
pub enum SiteKind {
    Mikanani,
    Nyaa,
    Dmhy,
}

impl MagnetSite for SiteKind {
    open spec fn accepts(&self, item: FeedEntry) -> bool {
        match self {
            SiteKind::Mikanani => Mikanani.accepts(item),
            SiteKind::Nyaa => Nyaa.accepts(item),
            SiteKind::Dmhy => Dmhy.accepts(item),
        }
    }

    open spec fn magnet_of(&self, item: FeedEntry) -> Seq<char> {
        match self {
            SiteKind::Mikanani => Mikanani.magnet_of(item),
            SiteKind::Nyaa => Nyaa.magnet_of(item),
            SiteKind::Dmhy => Dmhy.magnet_of(item),
        }
    }

    fn get_magnet(&self, item: &FeedItem) -> (m: String) {
        match self {
            SiteKind::Mikanani => Mikanani.get_magnet(item),
            SiteKind::Nyaa => Nyaa.get_magnet(item),
            SiteKind::Dmhy => Dmhy.get_magnet(item),
        }
    }
}

impl SiteKind {
    /// Whether this site can give the magnet link of `item`, and the item
    /// has a link.
    pub fn accepts_item(&self, item: &FeedItem) -> (b: bool)
        ensures
            b == (self.accepts(item@) && item@.link is Some),
    {
        match self {
            SiteKind::Mikanani => match &item.link {
                Some(l) => {
                    let chars = str_chars(l.as_str());
                    let pat = str_chars("Episode/");
                    chars_find(chars.as_slice(), pat.as_slice()).is_some()
                },
                None => false,
            },
            SiteKind::Nyaa => first_extension_value(item, "nyaa", "infoHash").is_some() && item.link.is_some(),
            SiteKind::Dmhy => item.enclosure_url.is_some() && item.link.is_some(),
        }
    }
}

/// The site that a host name stands for.
pub open spec fn site_for_host(host: Seq<char>) -> Option<SiteKind> {
    if host == "mikanani.me"@ {
        Some(SiteKind::Mikanani)
    } else if host == "nyaa.si"@ || host == "sukebei.nyaa.si"@ {
        Some(SiteKind::Nyaa)
    } else if host == "share.dmhy.org"@ {
        Some(SiteKind::Dmhy)
    } else {
        None
    }
}

/// The site of a name: a URL (a name that starts with `http`) stands for
/// the site of its host, any other name for the site of that host name.
pub open spec fn site_of(name: Seq<char>) -> Option<SiteKind> {
    if starts_with(name, "http"@) {
        match parsed_url_host(name) {
            Some(Some(h)) => site_for_host(h),
            _ => None,
        }
    } else {
        site_for_host(name)
    }
}

/// The site of a URL is that of its host: `get_site(url)` behaves as
/// `get_site(host)` for a host that does not itself start with `http`, and
/// no known site has a host that does.
pub proof fn lemma_site_of_url(name: Seq<char>, host: Seq<char>)
    requires
        starts_with(name, "http"@),
        parsed_url_host(name) == Some(Some(host)),
    ensures
        site_of(name) == site_for_host(host),
        !starts_with(host, "http"@) ==> site_of(name) == site_of(host),
        starts_with(host, "http"@) ==> site_of(name) is None,
{
    if starts_with(host, "http"@) && site_for_host(host) is Some {
        reveal_strlit("http");
        reveal_strlit("mikanani.me");
        reveal_strlit("nyaa.si");
        reveal_strlit("sukebei.nyaa.si");
        reveal_strlit("share.dmhy.org");
        assert("http"@.len() == 4 && "http"@[0] == 'h');
        assert(host.take(4)[0] == host[0]);
        assert(host[0] == 'h');
        assert(host[0] != 'h') by {
            if host == "mikanani.me"@ {
                assert("mikanani.me"@[0] == 'm');
            } else if host == "nyaa.si"@ {
                assert("nyaa.si"@[0] == 'n');
            } else if host == "sukebei.nyaa.si"@ {
                assert("sukebei.nyaa.si"@[0] == 's');
            } else {
                assert("share.dmhy.org"@[0] == 's');
            }
        }
    }
}

fn site_for_host_str(host: &str) -> (s: Option<SiteKind>)
    ensures
        s == site_for_host(host@),
{
    if str_eq(host, "mikanani.me") {
        Some(SiteKind::Mikanani)
    } else if str_eq(host, "nyaa.si") || str_eq(host, "sukebei.nyaa.si") {
        Some(SiteKind::Nyaa)
    } else if str_eq(host, "share.dmhy.org") {
        Some(SiteKind::Dmhy)
    } else {
        None
    }
}

/// The site of a URL or host name that names one of the known sites.
pub fn get_site(name: &str) -> (site: SiteKind)
    requires
        site_of(name@) is Some,
    ensures
        site_of(name@) == Some(site),
{
    let chars = str_chars(name);
    let http = str_chars("http");
    if chars_start_with(chars.as_slice(), http.as_slice()) {
        match parse_url_host(name) {
            Some(Some(host)) => site_for_host_str(host.as_str()).unwrap(),
            _ => {
                proof {
                    assert(false);
                }
                SiteKind::Mikanani
            },
        }
    } else {
        site_for_host_str(name).unwrap()
    }
}

/// The site of a URL or host name, or `None` when it names no known site.
pub fn find_site(name: &str) -> (site: Option<SiteKind>)
    ensures
        site == site_of(name@),
{
    let chars = str_chars(name);
    let http = str_chars("http");
    let known = if chars_start_with(chars.as_slice(), http.as_slice()) {
        match parse_url_host(name) {
            Some(Some(host)) => site_for_host_str(host.as_str()).is_some(),
            _ => false,
        }
    } else {
        site_for_host_str(name).is_some()
    };
    if known {
        Some(get_site(name))
    } else {
        None
    }
}

// ---------------------------------------------------------------- filter

/// Whether the regex library accepts `pattern`.
pub uninterp spec fn regex_accepts(pattern: Seq<char>) -> bool;

/// Whether the regex `pattern` matches somewhere in `text`.
pub uninterp spec fn regex_finds(pattern: Seq<char>, text: Seq<char>) -> bool;

/// `regex`: `Regex::new(pattern)` and, when it compiles, `is_match(text)`
/// of the compiled regex. Both outcomes depend on the pattern and the text
/// alone; they are named, not described.
#[verifier::external_body]
fn regex_is_match(pattern: &str, text: &str) -> (res: Option<bool>)
    ensures
        res == (if regex_accepts(pattern@) {
            Some(regex_finds(pattern@, text@))
        } else {
            None
        }),
{
    match regex::Regex::new(pattern) {
        Ok(re) => Some(re.is_match(text)),
        Err(_) => None,
    }
}

/// A filter that can be applied: a filter of a lone `/` cannot.
pub open spec fn filter_defined(filter: Option<Seq<char>>) -> bool {
    filter != Some("/"@)
}

/// Whether a title passes a subscription's filter: every title passes no
/// filter; a filter `/re/` is a regex that must match somewhere in the
/// title (every title passes a regex that does not compile); any other
/// filter is a text that the title must contain.
pub open spec fn filter_keeps(filter: Option<Seq<char>>, title: Seq<char>) -> bool {
    match filter {
        None => true,
        Some(pat) => if starts_with(pat, "/"@) && ends_with(pat, "/"@) {
            let re = pat.subrange(1, pat.len() - 1);
            if regex_accepts(re) {
                regex_finds(re, title)
            } else {
                true
            }
        } else {
            find(title, pat) is Some
        },
    }
}

/// What a filter keeps: every title when there is none; for a filter
/// written `/re/`, the titles that the regex `re` matches somewhere (every
/// title when `re` does not compile); for any other filter, exactly the
/// titles in which its text occurs, at any index, the first included.
pub proof fn lemma_filter_keeps_meaning(pat: Seq<char>, title: Seq<char>)
    ensures
        filter_keeps(None, title),
        pat.len() == 0 || pat[0] != '/' || pat[pat.len() - 1] != '/' ==> (filter_keeps(Some(pat), title)
            <==> exists|i: int|
            0 <= i && i + pat.len() <= title.len() && #[trigger] title.subrange(i, i + pat.len()) == pat),
        pat.len() >= 2 && pat[0] == '/' && pat[pat.len() - 1] == '/' ==> (filter_keeps(Some(pat), title)
            <==> (regex_accepts(pat.subrange(1, pat.len() - 1)) ==> regex_finds(
            pat.subrange(1, pat.len() - 1),
            title,
        ))),
{
    reveal_strlit("/");
    {
        let slash = "/"@;
        assert(slash.len() == 1 && slash[0] == '/');
        if pat.len() >= 1 {
            assert(pat.take(1)[0] == pat[0]);
            assert(pat.skip(pat.len() - 1)[0] == pat[pat.len() - 1]);
            if pat[0] == '/' {
                assert(pat.take(1) =~= slash);
            }
            if pat[pat.len() - 1] == '/' {
                assert(pat.skip(pat.len() - 1) =~= slash);
            }
        }
        if pat.len() == 0 || pat[0] != '/' || pat[pat.len() - 1] != '/' {
            assert(!(starts_with(pat, slash) && ends_with(pat, slash)));
            lemma_find_from(title, pat, 0);
            if let Some(i) = find(title, pat) {
                assert(occurs_at(title, pat, i as int));
                assert(title.subrange(i as int, i as int + pat.len()) == pat);
            } else {
                assert forall|i: int|
                    0 <= i && i + pat.len() <= title.len() implies #[trigger] title.subrange(i, i + pat.len())
                    != pat by {
                    assert(!occurs_at(title, pat, i));
                }
            }
        }
    }
}

/// The magnet item of a feed item keeps its title (empty when it has
/// none), link, description and content, with the given magnet link.
pub proof fn lemma_magnet_entry_fields(item: FeedEntry, magnet: Seq<char>)
    requires
        item.link is Some,
    ensures
        magnet_entry(item, magnet).magnet == magnet,
        magnet_entry(item, magnet).link == item.link.unwrap(),
        item.title matches Some(t) ==> magnet_entry(item, magnet).title == t,
        item.title is None ==> magnet_entry(item, magnet).title.len() == 0,
        magnet_entry(item, magnet).description == item.description,
        magnet_entry(item, magnet).content == item.content,
{
}

/// Whether a title passes a subscription's filter.
pub fn title_passes_filter(filter: &Option<String>, title: &str) -> (keep: bool)
    requires
        filter_defined(opt_view(*filter)),
    ensures
        keep == filter_keeps(opt_view(*filter), title@),
{
    match filter {
        None => true,
        Some(pat) => {
            let p = str_chars(pat.as_str());
            let slash = str_chars("/");
            proof {
                reveal_strlit("/");
            }
            if chars_start_with(p.as_slice(), slash.as_slice()) && chars_end_with(
                p.as_slice(),
                slash.as_slice(),
            ) {
                if p.len() < 2 {
                    proof {
                        assert(p@ =~= "/"@);
                    }
                    return true;
                }
                let re = string_from_chars(&p.as_slice()[1..p.len() - 1]);
                match regex_is_match(re.as_str(), title) {
                    Some(b) => b,
                    None => true,
                }
            } else {
                let t = str_chars(title);
                chars_find(t.as_slice(), p.as_slice()).is_some()
            }
        },
    }
}

// ---------------------------------------------------------------- feeds

/// What the `rss` crate reads out of a feed document: `None` when it does
/// not parse as a channel, else its items.
pub uninterp spec fn parsed_feed(content: Seq<u8>) -> Option<Seq<FeedEntry>>;

/// Feed items as entries.
pub open spec fn feed_view(items: Seq<FeedItem>) -> Seq<FeedEntry> {
    items.map_values(|i: FeedItem| i@)
}

/// `rss`: `Channel::read_from(content)` and, when it parses, the title,
/// link, description, content, enclosure url and extension values (per
/// namespace, per element name, each element's `value`) of each of its
/// items. The outcome depends on the bytes alone; it
/// is named, not described.
#[verifier::external_body]
pub(crate) fn read_feed(content: &[u8]) -> (res: Option<Vec<FeedItem>>)
    ensures
        match res {
            Some(items) => parsed_feed(content@) == Some(feed_view(items@)),
            None => parsed_feed(content@) is None,
        },
{
    let items = rss::Channel::read_from(content).ok()?.into_items();
    Some(items.into_iter().map(|it| FeedItem {
        title: it.title,
        link: it.link,
        description: it.description,
        content: it.content,
        enclosure_url: it.enclosure.map(|e| e.url),
        extensions: it.extensions.into_iter().map(|(ns, names)| (ns, names.into_iter().map(|(name, es)| (name, es.into_iter().map(|e| e.value).collect())).collect())).collect(),
    }).collect())
}

/// Every item has a link and a magnet link on `site`.
pub open spec fn items_ok(site: SiteKind, items: Seq<FeedEntry>) -> bool {
    forall|i: int| 0 <= i < items.len() ==> site.accepts(#[trigger] items[i]) && items[i].link is Some
}

/// The magnet items of `items` whose titles pass `filter`, in order.
pub open spec fn kept_items(site: SiteKind, items: Seq<FeedEntry>, filter: Option<Seq<char>>) -> Seq<MagnetEntry>
    decreases items.len(),
{
    if items.len() == 0 {
        Seq::empty()
    } else {
        let rest = kept_items(site, items.drop_last(), filter);
        let m = magnet_entry(items.last(), site.magnet_of(items.last()));
        if filter_keeps(filter, m.title) {
            rest.push(m)
        } else {
            rest
        }
    }
}

/// The kept items are exactly the magnet items of all the feed items
/// whose titles pass the filter, in order: every passing item is kept,
/// none that fails, and as many as pass.
pub proof fn lemma_kept_items_are_the_passing_items(site: SiteKind, items: Seq<FeedEntry>, filter: Option<Seq<char>>)
    ensures
        kept_items(site, items, filter) == items.map_values(
            |it: FeedEntry| magnet_entry(it, site.magnet_of(it)),
        ).filter(|m: MagnetEntry| filter_keeps(filter, m.title)),
        forall|i: int|
            0 <= i < items.len() && filter_keeps(
                filter,
                magnet_entry(items[i], site.magnet_of(items[i])).title,
            ) ==> kept_items(site, items, filter).contains(
                #[trigger] magnet_entry(items[i], site.magnet_of(items[i])),
            ),
    decreases items.len(),
{
    reveal(Seq::filter);
    let f = |it: FeedEntry| magnet_entry(it, site.magnet_of(it));
    let p = |m: MagnetEntry| filter_keeps(filter, m.title);
    let all = items.map_values(f);
    if items.len() > 0 {
        let d = items.drop_last();
        lemma_kept_items_are_the_passing_items(site, d, filter);
        assert(all.drop_last() =~= d.map_values(f));
        assert(all.last() == f(items.last()));
    } else {
        assert(all =~= Seq::<MagnetEntry>::empty());
    }
    assert forall|i: int|
        0 <= i < items.len() && filter_keeps(filter, magnet_entry(items[i], site.magnet_of(items[i])).title)
            implies kept_items(site, items, filter).contains(
        #[trigger] magnet_entry(items[i], site.magnet_of(items[i])),
    ) by {
        assert(all[i] == magnet_entry(items[i], site.magnet_of(items[i])));
        all.lemma_filter_contains(p, i);
    }
}

/// Without a filter every item is kept: the kept items are the magnet
/// items of all the feed items, in order.
pub proof fn lemma_no_filter_keeps_all(site: SiteKind, items: Seq<FeedEntry>)
    ensures
        kept_items(site, items, None) == Seq::new(
            items.len(),
            |i: int| magnet_entry(items[i], site.magnet_of(items[i])),
        ),
    decreases items.len(),
{
    if items.len() > 0 {
        lemma_no_filter_keeps_all(site, items.drop_last());
        assert(kept_items(site, items, None) =~= Seq::new(
            items.len(),
            |i: int| magnet_entry(items[i], site.magnet_of(items[i])),
        ));
    } else {
        assert(kept_items(site, items, None) =~= Seq::new(
            items.len(),
            |i: int| magnet_entry(items[i], site.magnet_of(items[i])),
        ));
    }
}

/// Every kept item passes the filter, and no more items are kept than
/// there are feed items.
pub proof fn lemma_kept_items_pass(site: SiteKind, items: Seq<FeedEntry>, filter: Option<Seq<char>>)
    ensures
        kept_items(site, items, filter).len() <= items.len(),
        forall|i: int|
            0 <= i < kept_items(site, items, filter).len() ==> filter_keeps(
                filter,
                #[trigger] kept_items(site, items, filter)[i].title,
            ),
    decreases items.len(),
{
    if items.len() > 0 {
        lemma_kept_items_pass(site, items.drop_last(), filter);
        let rest = kept_items(site, items.drop_last(), filter);
        assert forall|i: int| 0 <= i < kept_items(site, items, filter).len() implies filter_keeps(
            filter,
            #[trigger] kept_items(site, items, filter)[i].title,
        ) by {
            if i < rest.len() {
                assert(kept_items(site, items, filter)[i] == rest[i]);
            }
        }
    }
}

/// Magnet items as entries.
pub open spec fn magnet_view(items: Seq<MagnetItem>) -> Seq<MagnetEntry> {
    items.map_values(|m: MagnetItem| m@)
}

/// The magnet items of the feed items of `site` whose titles pass
/// `filter`.
pub fn collect_magnet_items(site: &SiteKind, items: &Vec<FeedItem>, filter: &Option<String>) -> (out: Vec<MagnetItem>)
    requires
        items_ok(*site, feed_view(items@)),
        items@.len() > 0 ==> filter_defined(opt_view(*filter)),
    ensures
        magnet_view(out@) == kept_items(*site, feed_view(items@), opt_view(*filter)),
{
    let mut out: Vec<MagnetItem> = Vec::new();
    let n = items.len();
    let mut i: usize = 0;
    while i < n
        invariant
            n == items@.len(),
            i <= n,
            items_ok(*site, feed_view(items@)),
            n > 0 ==> filter_defined(opt_view(*filter)),
            magnet_view(out@) == kept_items(*site, feed_view(items@).take(i as int), opt_view(*filter)),
        decreases n - i,
    {
        let ghost fv = feed_view(items@);
        assert(fv[i as int] == items@[i as int]@);
        assert(site.accepts(fv[i as int]) && fv[i as int].link is Some);
        let m = site.get_magnet_item(&items[i]);
        let keep = title_passes_filter(filter, m.title.as_str());
        let ghost before = out@;
        if keep {
            out.push(m);
        }
        proof {
            assert(fv.take(i + 1).drop_last() =~= fv.take(i as int));
            assert(fv.take(i + 1).last() == fv[i as int]);
            if keep {
                assert(magnet_view(out@) =~= magnet_view(before).push(m@));
            }
        }
        i += 1;
    }
    proof {
        assert(feed_view(items@).take(n as int) =~= feed_view(items@));
    }
    out
}

/// The magnet items that a subscription yields from the feed document
/// fetched from its url (`None` when fetching failed).
pub open spec fn magnet_list_outcome(config: RssConfig, content: Option<Seq<u8>>) -> Option<Seq<MagnetEntry>> {
    match site_of(config.url@) {
        None => None,
        Some(site) => match content {
            None => Some(Seq::empty()),
            Some(bytes) => match parsed_feed(bytes) {
                None => Some(Seq::empty()),
                Some(items) => if items_ok(site, items) && (items.len() > 0 ==> filter_defined(
                    opt_view(config.filter),
                )) {
                    Some(kept_items(site, items, opt_view(config.filter)))
                } else {
                    None
                },
            },
        },
    }
}

/// What a subscription yields: nothing for a url that names no known
/// site; for a known site, no items when the feed was not fetched or does
/// not parse, else exactly the magnet items of the feed items whose titles
/// pass the subscription's filter, in order.
pub proof fn lemma_magnet_list_meaning(
    config: RssConfig,
    content: Option<Seq<u8>>,
    site: SiteKind,
    items: Seq<FeedEntry>,
)
    ensures
        site_of(config.url@) is None ==> magnet_list_outcome(config, content) is None,
        site_of(config.url@) == Some(site) && content is None ==> magnet_list_outcome(config, content)
            == Some(Seq::<MagnetEntry>::empty()),
        site_of(config.url@) == Some(site) && (content matches Some(b) && parsed_feed(b) is None)
            ==> magnet_list_outcome(config, content) == Some(Seq::<MagnetEntry>::empty()),
        site_of(config.url@) == Some(site) && (content matches Some(b) && parsed_feed(b) == Some(items))
            && items_ok(site, items) && (items.len() > 0 ==> filter_defined(opt_view(config.filter)))
            ==> magnet_list_outcome(config, content) == Some(
            items.map_values(|it: FeedEntry| magnet_entry(it, site.magnet_of(it))).filter(
                |m: MagnetEntry| filter_keeps(opt_view(config.filter), m.title),
            ),
        ),
{
    lemma_kept_items_are_the_passing_items(site, items, opt_view(config.filter));
}

/// The magnet items of a subscription: the items of the fetched feed
/// document that pass the subscription's filter, each with its magnet
/// link; none when the document was not fetched or does not parse.
/// `None` where no list can be made: the url names no known site, an item
/// lacks a link or a magnet link, or the filter is a lone `/`.
pub fn get_magnetitem_list(config: &RssConfig, content: Option<&[u8]>) -> (r: Option<Vec<MagnetItem>>)
    ensures
        match r {
            Some(v) => magnet_list_outcome(*config, match content {
                Some(c) => Some(c@),
                None => None,
            }) == Some(magnet_view(v@)),
            None => magnet_list_outcome(*config, match content {
                Some(c) => Some(c@),
                None => None,
            }) is None,
        },
{
    let site = match find_site(config.url.as_str()) {
        Some(s) => s,
        None => return None,
    };
    let bytes = match content {
        Some(c) => c,
        None => {
            proof {
                assert(magnet_view(Seq::<MagnetItem>::empty()) =~= Seq::<MagnetEntry>::empty());
            }
            return Some(Vec::new());
        },
    };
    let items = match read_feed(bytes) {
        Some(items) => items,
        None => {
            proof {
                assert(magnet_view(Seq::<MagnetItem>::empty()) =~= Seq::<MagnetEntry>::empty());
            }
            return Some(Vec::new());
        },
    };
    let n = items.len();
    let mut i: usize = 0;
    while i < n
        invariant
            n == items@.len(),
            i <= n,
            site_of(config.url@) == Some(site),
            content == Some(bytes),
            parsed_feed(bytes@) == Some(feed_view(items@)),
            forall|j: int| 0 <= j < i ==> site.accepts(#[trigger] feed_view(items@)[j])
                && feed_view(items@)[j].link is Some,
        decreases n - i,
    {
        if !site.accepts_item(&items[i]) {
            proof {
                assert(feed_view(items@)[i as int] == items@[i as int]@);
                assert(!items_ok(site, feed_view(items@)));
            }
            return None;
        }
        proof {
            assert(feed_view(items@)[i as int] == items@[i as int]@);
        }
        i += 1;
    }
    if n > 0 {
        if let Some(f) = &config.filter {
            if str_eq(f.as_str(), "/") {
                proof {
                    assert(feed_view(items@).len() > 0);
                }
                return None;
            }
        }
    }
    Some(collect_magnet_items(&site, &items, &config.filter))
}

} // verus!
