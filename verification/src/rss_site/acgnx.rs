use vstd::prelude::*;
use super::{cut_before, cut_before_spec, FeedEntry, FeedItem, MagnetSite};
use crate::text::{lemma_find_first, lemma_find_none};

verus! {

/// acgnx: the magnet link is the enclosure url, cut before its first
/// `&tr=` parameter.
pub struct Acgnx;

impl MagnetSite for Acgnx {
    open spec fn accepts(&self, item: FeedEntry) -> bool {
        item.enclosure_url is Some
    }

    open spec fn magnet_of(&self, item: FeedEntry) -> Seq<char> {
        cut_before_spec(item.enclosure_url.unwrap(), "&tr="@)
    }

    fn get_magnet(&self, item: &FeedItem) -> (m: String) {
        match &item.enclosure_url {
            Some(url) => cut_before(url.as_str(), "&tr="),
            None => {
                proof {
                    assert(false);
                }
                String::new()
            },
        }
    }
}

/// The magnet link of a acgnx item is its enclosure url up to the first
/// `&tr=`, or the whole url when it has none.
pub proof fn lemma_acgnx_magnet(item: FeedEntry, url: Seq<char>)
    requires
        item.enclosure_url == Some(url),
    ensures
        Acgnx.accepts(item),
        forall|k: int|
            0 <= k && k + 4 <= url.len() && #[trigger] url.subrange(k, k + 4) == "&tr="@ && (forall|j: int|
                0 <= j < k ==> #[trigger] url.subrange(j, j + 4) != "&tr="@) ==> Acgnx.magnet_of(item) == url.take(k),
        (forall|j: int| 0 <= j && j + 4 <= url.len() ==> #[trigger] url.subrange(j, j + 4) != "&tr="@) ==> Acgnx.magnet_of(item)
            == url,
{
    reveal_strlit("&tr=");
    assert forall|k: int|
        0 <= k && k + 4 <= url.len() && #[trigger] url.subrange(k, k + 4) == "&tr="@ && (forall|j: int|
            0 <= j < k ==> #[trigger] url.subrange(j, j + 4) != "&tr="@) implies Acgnx.magnet_of(item) == url.take(k) by {
        lemma_find_first(url, "&tr="@, k);
    }
    if forall|j: int| 0 <= j && j + 4 <= url.len() ==> #[trigger] url.subrange(j, j + 4) != "&tr="@ {
        lemma_find_none(url, "&tr="@);
    }
}

} // verus!
