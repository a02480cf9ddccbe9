use vstd::prelude::*;
use super::{cut_before, cut_before_spec, FeedEntry, FeedItem, MagnetSite};
use crate::text::{lemma_find_first, lemma_find_none};

verus! {

/// share.dmhy.org: the magnet link is the enclosure url, cut before its
/// `&dn=` parameter.
pub struct Dmhy;

impl MagnetSite for Dmhy {
    open spec fn accepts(&self, item: FeedEntry) -> bool {
        item.enclosure_url is Some
    }

    open spec fn magnet_of(&self, item: FeedEntry) -> Seq<char> {
        cut_before_spec(item.enclosure_url.unwrap(), "&dn="@)
    }

    fn get_magnet(&self, item: &FeedItem) -> (m: String) {
        match &item.enclosure_url {
            Some(url) => cut_before(url.as_str(), "&dn="),
            None => {
                proof {
                    assert(false);
                }
                String::new()
            },
        }
    }
}

/// The magnet link of a share.dmhy.org item is its enclosure url up to the first
/// `&dn=`, or the whole url when it has none.
pub proof fn lemma_dmhy_magnet(item: FeedEntry, url: Seq<char>)
    requires
        item.enclosure_url == Some(url),
    ensures
        Dmhy.accepts(item),
        forall|k: int|
            0 <= k && k + 4 <= url.len() && #[trigger] url.subrange(k, k + 4) == "&dn="@ && (forall|j: int|
                0 <= j < k ==> #[trigger] url.subrange(j, j + 4) != "&dn="@) ==> Dmhy.magnet_of(item) == url.take(k),
        (forall|j: int| 0 <= j && j + 4 <= url.len() ==> #[trigger] url.subrange(j, j + 4) != "&dn="@) ==> Dmhy.magnet_of(item)
            == url,
{
    reveal_strlit("&dn=");
    assert forall|k: int|
        0 <= k && k + 4 <= url.len() && #[trigger] url.subrange(k, k + 4) == "&dn="@ && (forall|j: int|
            0 <= j < k ==> #[trigger] url.subrange(j, j + 4) != "&dn="@) implies Dmhy.magnet_of(item) == url.take(k) by {
        lemma_find_first(url, "&dn="@, k);
    }
    if forall|j: int| 0 <= j && j + 4 <= url.len() ==> #[trigger] url.subrange(j, j + 4) != "&dn="@ {
        lemma_find_none(url, "&dn="@);
    }
}

} // verus!
