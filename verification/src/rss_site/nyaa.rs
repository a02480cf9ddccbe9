use vstd::prelude::*;
use super::{extension_values, first_extension_value, FeedEntry, FeedItem, MagnetSite};

verus! {

/// nyaa.si and sukebei.nyaa.si: the info hash is the value of the item's
/// first `nyaa:infoHash` element.
pub struct Nyaa;

/// The value of the first `nyaa:infoHash` element of an item, when it has
/// one with a value.
pub open spec fn info_hash(item: FeedEntry) -> Option<Seq<char>> {
    match extension_values(item.extensions, "nyaa"@, "infoHash"@) {
        Some(vs) => if vs.len() > 0 {
            vs[0]
        } else {
            None
        },
        None => None,
    }
}

impl MagnetSite for Nyaa {
    open spec fn accepts(&self, item: FeedEntry) -> bool {
        info_hash(item) is Some
    }

    open spec fn magnet_of(&self, item: FeedEntry) -> Seq<char> {
        "magnet:?xt=urn:btih:"@ + info_hash(item).unwrap()
    }

    fn get_magnet(&self, item: &FeedItem) -> (m: String) {
        match first_extension_value(item, "nyaa", "infoHash") {
            Some(hash) => String::from_str("magnet:?xt=urn:btih:").concat(hash.as_str()),
            None => {
                proof {
                    assert(false);
                }
                String::new()
            },
        }
    }
}

/// The magnet link of a nyaa item is the btih prefix followed by the whole
/// value of the item's first `nyaa:infoHash` element.
pub proof fn lemma_nyaa_magnet(item: FeedEntry, hash: Seq<char>)
    requires
        extension_values(item.extensions, "nyaa"@, "infoHash"@) matches Some(vs) && vs.len() > 0
            && vs[0] == Some(hash),
    ensures
        Nyaa.accepts(item),
        Nyaa.magnet_of(item) == "magnet:?xt=urn:btih:"@ + hash,
        Nyaa.magnet_of(item).len() == 20 + hash.len(),
        Nyaa.magnet_of(item).skip(20) == hash,
{
    reveal_strlit("magnet:?xt=urn:btih:");
    assert(("magnet:?xt=urn:btih:"@ + hash).skip(20) =~= hash);
}

} // verus!
