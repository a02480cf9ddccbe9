use vstd::prelude::*;
use crate::text::{chars_find, find, lemma_find_first, lemma_find_from, str_chars, string_from_chars};
use super::{FeedEntry, FeedItem, MagnetSite};

verus! {

/// mikanani.me: the info hash is the last part of the item link, after
/// `Episode/`.
pub struct Mikanani;

impl MagnetSite for Mikanani {
    open spec fn accepts(&self, item: FeedEntry) -> bool {
        item.link matches Some(link) && find(link, "Episode/"@) is Some
    }

    open spec fn magnet_of(&self, item: FeedEntry) -> Seq<char> {
        let link = item.link.unwrap();
        "magnet:?xt=urn:btih:"@ + link.skip(find(link, "Episode/"@).unwrap() + 8 as int)
    }

    fn get_magnet(&self, item: &FeedItem) -> (m: String) {
        let link = match &item.link {
            Some(l) => l,
            None => {
                proof {
                    assert(false);
                }
                return String::new();
            },
        };
        let chars = str_chars(link.as_str());
        let n = chars.len();
        let pat = str_chars("Episode/");
        proof {
            reveal_strlit("Episode/");
            lemma_find_from(chars@, pat@, 0);
        }
        let idx = chars_find(chars.as_slice(), pat.as_slice()).unwrap();
        let hash = string_from_chars(&chars.as_slice()[idx + 8..n]);
        proof {
            assert(chars@.subrange(idx + 8, chars@.len() as int) =~= chars@.skip(idx + 8));
        }
        String::from_str("magnet:?xt=urn:btih:").concat(hash.as_str())
    }
}

/// The magnet link of a mikanani.me item is the btih prefix followed by
/// what its link holds after the first `Episode/`.
pub proof fn lemma_mikanani_magnet(item: FeedEntry, link: Seq<char>, k: int)
    requires
        item.link == Some(link),
        0 <= k,
        k + 8 <= link.len(),
        link.subrange(k, k + 8) == "Episode/"@,
        forall|j: int| 0 <= j < k ==> #[trigger] link.subrange(j, j + 8) != "Episode/"@,
    ensures
        Mikanani.accepts(item),
        Mikanani.magnet_of(item) == "magnet:?xt=urn:btih:"@ + link.skip(k + 8),
        Mikanani.magnet_of(item).len() == 20 + link.len() - k - 8,
{
    reveal_strlit("Episode/");
    reveal_strlit("magnet:?xt=urn:btih:");
    lemma_find_first(link, "Episode/"@, k);
}

} // verus!
