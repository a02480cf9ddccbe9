//! The 115 client protocol: parameters of an offline-download request.

pub mod crypto;

use vstd::prelude::*;
use crate::form::{FormData, url_key, url_key_string, lemma_url_key_injective};
use crate::text::opt_view;

verus! {

/// The strings as character sequences.
pub open spec fn strings_view(v: Seq<String>) -> Seq<Seq<char>> {
    v.map_values(|s: String| s@)
}

/// `m` with `url[i]` set to the `i`th url, one after another.
pub open spec fn with_urls(m: Map<Seq<char>, Seq<char>>, urls: Seq<Seq<char>>) -> Map<Seq<char>, Seq<char>>
    decreases urls.len(),
{
    if urls.len() == 0 {
        m
    } else {
        with_urls(m, urls.drop_last()).insert(url_key((urls.len() - 1) as nat), urls.last())
    }
}

/// `m` with `wp_path_id` set to the folder id, when there is one.
pub open spec fn with_cid(m: Map<Seq<char>, Seq<char>>, cid: Option<Seq<char>>) -> Map<Seq<char>, Seq<char>> {
    match cid {
        Some(c) => m.insert("wp_path_id"@, c),
        None => m,
    }
}

/// The parameters of an offline request, inserted in the order of the
/// client: `uid`, `app_ver`, `ac`, the urls, then the folder id.
pub open spec fn offline_params(
    uid: Seq<char>,
    app_ver: Seq<char>,
    urls: Seq<Seq<char>>,
    cid: Option<Seq<char>>,
) -> Map<Seq<char>, Seq<char>> {
    with_cid(
        with_urls(
            Map::empty().insert("uid"@, uid).insert("app_ver"@, app_ver).insert(
                "ac"@,
                "add_task_urls"@,
            ),
            urls,
        ),
        cid,
    )
}

/// Every url stays under its own key.
pub proof fn lemma_with_urls(m: Map<Seq<char>, Seq<char>>, urls: Seq<Seq<char>>, i: int)
    requires
        0 <= i < urls.len(),
    ensures
        with_urls(m, urls).contains_key(url_key(i as nat)),
        with_urls(m, urls)[url_key(i as nat)] == urls[i],
    decreases urls.len(),
{
    let d = urls.drop_last();
    let last = (urls.len() - 1) as nat;
    assert(with_urls(m, urls) == with_urls(m, d).insert(url_key(last), urls.last()));
    if i < last {
        lemma_with_urls(m, d, i);
        if url_key(i as nat) == url_key(last) {
            lemma_url_key_injective(i as nat, last);
        }
        assert(d[i] == urls[i]);
    }
}

/// Keys other than url keys keep what they had.
pub proof fn lemma_with_urls_other(m: Map<Seq<char>, Seq<char>>, urls: Seq<Seq<char>>, k: Seq<char>)
    requires
        forall|i: nat| #[trigger] url_key(i) != k,
    ensures
        with_urls(m, urls).contains_key(k) == m.contains_key(k),
        with_urls(m, urls)[k] == m[k],
    decreases urls.len(),
{
    if urls.len() > 0 {
        let last = (urls.len() - 1) as nat;
        assert(url_key(last) != k);
        lemma_with_urls_other(m, urls.drop_last(), k);
    }
}

/// Setting a key that is no url key commutes with setting the urls.
pub proof fn lemma_with_urls_insert(
    m: Map<Seq<char>, Seq<char>>,
    urls: Seq<Seq<char>>,
    k: Seq<char>,
    v: Seq<char>,
)
    requires
        forall|i: nat| #[trigger] url_key(i) != k,
    ensures
        with_urls(m.insert(k, v), urls) == with_urls(m, urls).insert(k, v),
    decreases urls.len(),
{
    if urls.len() > 0 {
        let last = (urls.len() - 1) as nat;
        assert(url_key(last) != k);
        lemma_with_urls_insert(m, urls.drop_last(), k, v);
        assert(with_urls(m.insert(k, v), urls) =~= with_urls(m, urls).insert(k, v));
    } else {
        assert(with_urls(m.insert(k, v), urls) =~= with_urls(m, urls).insert(k, v));
    }
}

/// Removing a key that is no url key commutes with setting the urls.
pub proof fn lemma_with_urls_remove(m: Map<Seq<char>, Seq<char>>, urls: Seq<Seq<char>>, k: Seq<char>)
    requires
        forall|i: nat| #[trigger] url_key(i) != k,
    ensures
        with_urls(m.remove(k), urls) == with_urls(m, urls).remove(k),
    decreases urls.len(),
{
    if urls.len() > 0 {
        let last = (urls.len() - 1) as nat;
        assert(url_key(last) != k);
        lemma_with_urls_remove(m, urls.drop_last(), k);
        assert(with_urls(m.remove(k), urls) =~= with_urls(m, urls).remove(k));
    } else {
        assert(with_urls(m.remove(k), urls) =~= with_urls(m, urls).remove(k));
    }
}

/// A fixed key is never a url key: url keys start with `ur`.
pub proof fn lemma_not_url_key(k: Seq<char>)
    requires
        k.len() >= 2,
        k[0] != 'u' || k[1] != 'r',
    ensures
        forall|i: nat| #[trigger] url_key(i) != k,
{
    reveal_strlit("url[");
    assert forall|i: nat| #[trigger] url_key(i) != k by {
        let u = url_key(i);
        assert(u[0] == 'u' && u[1] == 'r');
    }
}

/// The parameters of an offline-download request for `urls`, into the
/// folder `cid` when one is given.
pub fn gen_offline_params(
    uid: String,
    app_ver: String,
    urls: Vec<String>,
    cid: Option<String>,
) -> (params: FormData)
    ensures
        params@ == offline_params(uid@, app_ver@, strings_view(urls@), opt_view(cid)),
        params@["uid"@] == uid@,
        params@["app_ver"@] == app_ver@,
        params@["ac"@] == "add_task_urls"@,
        forall|i: int| 0 <= i < urls@.len() ==> params@[#[trigger] url_key(i as nat)] == urls@[i]@,
        cid is Some <==> params@.contains_key("wp_path_id"@),
        cid matches Some(c) ==> params@["wp_path_id"@] == c@,
{
    let mut params = FormData::new();
    params.insert(String::from_str("uid"), uid);
    params.insert(String::from_str("app_ver"), app_ver);
    params.insert(String::from_str("ac"), String::from_str("add_task_urls"));
    let ghost base = params@;
    let n = urls.len();
    let mut i: usize = 0;
    while i < n
        invariant
            n == urls@.len(),
            i <= n,
            params@ == with_urls(base, strings_view(urls@).take(i as int)),
        decreases n - i,
    {
        let key = url_key_string(i as u64);
        params.insert(key, urls[i].clone());
        proof {
            let t = strings_view(urls@).take(i + 1);
            assert(t.drop_last() =~= strings_view(urls@).take(i as int));
        }
        i += 1;
    }
    let ghost with_all = params@;
    if let Some(cid) = cid {
        params.insert(String::from_str("wp_path_id"), cid);
    }
    proof {
        let us = strings_view(urls@);
        assert(us.take(n as int) =~= us);
        reveal_strlit("uid");
        reveal_strlit("app_ver");
        reveal_strlit("ac");
        reveal_strlit("wp_path_id");
        lemma_not_url_key("uid"@);
        lemma_not_url_key("app_ver"@);
        lemma_not_url_key("ac"@);
        lemma_not_url_key("wp_path_id"@);
        assert("uid"@ != "app_ver"@);
        assert("uid"@ != "ac"@);
        assert("app_ver"@ != "ac"@);
        assert("uid"@ != "wp_path_id"@);
        assert("app_ver"@ != "wp_path_id"@);
        assert("ac"@ != "wp_path_id"@);
        assert(!base.contains_key("wp_path_id"@));
        assert forall|i: int| 0 <= i < urls@.len() implies params@[#[trigger] url_key(i as nat)]
            == urls@[i]@ by {
            lemma_with_urls(base, us, i);
            if cid is Some {
                lemma_not_url_key("wp_path_id"@);
                assert(url_key(i as nat) != "wp_path_id"@);
            }
        }
        lemma_with_urls_other(base, us, "uid"@);
        lemma_with_urls_other(base, us, "app_ver"@);
        lemma_with_urls_other(base, us, "ac"@);
        lemma_with_urls_other(base, us, "wp_path_id"@);
    }
    params
}

} // verus!
