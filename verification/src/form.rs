//! Form data: string keys mapped to string values, where inserting a key
//! that is already there replaces its value; and the decimal numbers that
//! name indexed keys such as `url[3]`.

use vstd::prelude::*;
use crate::text::string_from_chars;

verus! {

/// The decimal digit `d` as a character.
pub open spec fn digit_char(d: nat) -> char {
    if d == 0 {
        '0'
    } else if d == 1 {
        '1'
    } else if d == 2 {
        '2'
    } else if d == 3 {
        '3'
    } else if d == 4 {
        '4'
    } else if d == 5 {
        '5'
    } else if d == 6 {
        '6'
    } else if d == 7 {
        '7'
    } else if d == 8 {
        '8'
    } else {
        '9'
    }
}

/// The decimal representation of `n`, without leading zeros.
pub open spec fn decimal(n: nat) -> Seq<char>
    decreases n,
{
    if n < 10 {
        seq![digit_char(n)]
    } else {
        decimal(n / 10).push(digit_char(n % 10))
    }
}

/// The number that a string of decimal digit characters denotes.
pub open spec fn digits_value(cs: Seq<char>) -> int
    decreases cs.len(),
{
    if cs.len() == 0 {
        0
    } else {
        digits_value(cs.drop_last()) * 10 + (cs.last() as int - '0' as int)
    }
}

/// The decimal representation of `n` is made of the digits `0`..`9`,
/// denotes `n`, and starts with `0` only for zero itself.
pub proof fn lemma_decimal_meaning(n: nat)
    ensures
        forall|i: int| 0 <= i < decimal(n).len() ==> '0' <= #[trigger] decimal(n)[i] <= '9',
        digits_value(decimal(n)) == n,
        decimal(n)[0] == '0' ==> n == 0,
    decreases n,
{
    if n >= 10 {
        lemma_decimal_meaning(n / 10);
        lemma_decimal_len(n / 10);
        let d = decimal(n);
        assert(d.drop_last() =~= decimal(n / 10));
        assert(d[0] == decimal(n / 10)[0]);
        assert forall|i: int| 0 <= i < d.len() implies '0' <= #[trigger] d[i] <= '9' by {
            if i < d.len() - 1 {
                assert(d[i] == decimal(n / 10)[i]);
            }
        }
        assert(digits_value(d) == (n / 10) * 10 + n % 10);
        assert((n / 10) * 10 + n % 10 == n) by {
            vstd::arithmetic::div_mod::lemma_fundamental_div_mod(n as int, 10);
        }
    } else {
        assert(decimal(n).drop_last() =~= Seq::<char>::empty());
        assert(digits_value(Seq::<char>::empty()) == 0);
        assert(decimal(n).last() == digit_char(n));
        assert(digit_char(n) as int - '0' as int == n);
    }
}

/// The key under which the `i`th url is sent: `url[i]`.
pub open spec fn url_key(i: nat) -> Seq<char> {
    "url["@ + decimal(i) + "]"@
}

pub proof fn lemma_decimal_len(n: nat)
    ensures
        decimal(n).len() >= 1,
        n >= 10 ==> decimal(n).len() >= 2,
    decreases n,
{
    if n >= 10 {
        lemma_decimal_len(n / 10);
    }
}

/// Different numbers have different decimal representations.
pub proof fn lemma_decimal_injective(a: nat, b: nat)
    requires
        decimal(a) == decimal(b),
    ensures
        a == b,
    decreases a,
{
    lemma_decimal_len(a);
    lemma_decimal_len(b);
    if a < 10 && b < 10 {
        assert(decimal(a)[0] == digit_char(a));
        assert(decimal(b)[0] == digit_char(b));
    } else if a >= 10 && b >= 10 {
        assert(decimal(a).last() == digit_char(a % 10));
        assert(decimal(b).last() == digit_char(b % 10));
        assert(a % 10 == b % 10);
        assert(decimal(a).drop_last() =~= decimal(a / 10));
        assert(decimal(b).drop_last() =~= decimal(b / 10));
        lemma_decimal_injective(a / 10, b / 10);
    }
}

/// Different indices give different url keys.
pub proof fn lemma_url_key_injective(a: nat, b: nat)
    requires
        url_key(a) == url_key(b),
    ensures
        a == b,
{
    reveal_strlit("url[");
    reveal_strlit("]");
    lemma_decimal_len(a);
    lemma_decimal_len(b);
    let ka = url_key(a);
    let kb = url_key(b);
    assert(ka.len() == decimal(a).len() + 5);
    assert(decimal(a) =~= ka.subrange(4, ka.len() - 1));
    assert(decimal(b) =~= kb.subrange(4, kb.len() - 1));
    lemma_decimal_injective(a, b);
}

fn digit(d: u64) -> (c: char)
    requires
        d < 10,
    ensures
        c == digit_char(d as nat),
{
    if d == 0 {
        '0'
    } else if d == 1 {
        '1'
    } else if d == 2 {
        '2'
    } else if d == 3 {
        '3'
    } else if d == 4 {
        '4'
    } else if d == 5 {
        '5'
    } else if d == 6 {
        '6'
    } else if d == 7 {
        '7'
    } else if d == 8 {
        '8'
    } else {
        '9'
    }
}

fn decimal_chars(n: u64) -> (v: Vec<char>)
    ensures
        v@ == decimal(n as nat),
    decreases n,
{
    if n < 10 {
        let mut v = Vec::new();
        v.push(digit(n));
        v
    } else {
        let mut v = decimal_chars(n / 10);
        v.push(digit(n % 10));
        v
    }
}

/// The decimal representation of `n`.
pub fn decimal_string(n: u64) -> (s: String)
    ensures
        s@ == decimal(n as nat),
{
    let v = decimal_chars(n);
    string_from_chars(v.as_slice())
}

/// The key `url[i]`.
pub fn url_key_string(i: u64) -> (s: String)
    ensures
        s@ == url_key(i as nat),
{
    let s = String::from_str("url[");
    let s = s.concat(decimal_string(i).as_str());
    s.concat("]")
}

/// Key–value pairs as the map they build when inserted in order.
pub open spec fn pairs_map(ps: Seq<(Seq<char>, Seq<char>)>) -> Map<Seq<char>, Seq<char>>
    decreases ps.len(),
{
    if ps.len() == 0 {
        Map::empty()
    } else {
        pairs_map(ps.drop_last()).insert(ps.last().0, ps.last().1)
    }
}

/// No key occurs twice.
pub open spec fn distinct_keys(ps: Seq<(Seq<char>, Seq<char>)>) -> bool {
    forall|i: int, j: int|
        0 <= i < ps.len() && 0 <= j < ps.len() && i != j ==> #[trigger] ps[i].0 != #[trigger] ps[j].0
}

/// The pairs of strings as pairs of character sequences.
pub open spec fn pairs_view(ps: Seq<(String, String)>) -> Seq<(Seq<char>, Seq<char>)> {
    ps.map_values(|p: (String, String)| (p.0@, p.1@))
}

proof fn lemma_pairs_map_update(ps: Seq<(Seq<char>, Seq<char>)>, idx: int, v: Seq<char>)
    requires
        distinct_keys(ps),
        0 <= idx < ps.len(),
    ensures
        pairs_map(ps.update(idx, (ps[idx].0, v))) == pairs_map(ps).insert(ps[idx].0, v),
    decreases ps.len(),
{
    let k = ps[idx].0;
    let qs = ps.update(idx, (k, v));
    if idx == ps.len() - 1 {
        assert(qs.drop_last() =~= ps.drop_last());
        assert(pairs_map(qs) =~= pairs_map(ps).insert(k, v));
    } else {
        let d = ps.drop_last();
        assert(distinct_keys(d)) by {
            assert forall|i: int, j: int|
                0 <= i < d.len() && 0 <= j < d.len() && i != j implies #[trigger] d[i].0
                != #[trigger] d[j].0 by {
                assert(d[i] == ps[i] && d[j] == ps[j]);
            }
        }
        lemma_pairs_map_update(d, idx, v);
        assert(qs.drop_last() =~= d.update(idx, (k, v)));
        assert(ps.last().0 != k) by {
            assert(ps[ps.len() - 1].0 != ps[idx].0);
        }
        assert(qs.last() == ps.last());
        assert(pairs_map(qs) =~= pairs_map(ps).insert(k, v));
    }
}

proof fn lemma_pairs_map_absent(ps: Seq<(Seq<char>, Seq<char>)>, k: Seq<char>)
    requires
        forall|i: int| 0 <= i < ps.len() ==> #[trigger] ps[i].0 != k,
    ensures
        !pairs_map(ps).contains_key(k),
    decreases ps.len(),
{
    if ps.len() > 0 {
        let d = ps.drop_last();
        assert forall|i: int| 0 <= i < d.len() implies #[trigger] d[i].0 != k by {
            assert(d[i] == ps[i]);
        }
        lemma_pairs_map_absent(d, k);
        assert(ps.last().0 != k) by {
            assert(ps[ps.len() - 1].0 != k);
        }
    }
}

/// Form fields; a key occurs at most once.
pub struct FormData {
    entries: Vec<(String, String)>,
}

impl View for FormData {
    type V = Map<Seq<char>, Seq<char>>;

    closed spec fn view(&self) -> Map<Seq<char>, Seq<char>> {
        pairs_map(pairs_view(self.entries@))
    }
}

impl FormData {
    #[verifier::type_invariant]
    spec fn keys_distinct(&self) -> bool {
        distinct_keys(pairs_view(self.entries@))
    }

    /// The fields in the order in which their keys first came in.
    pub closed spec fn fields(&self) -> Seq<(Seq<char>, Seq<char>)> {
        pairs_view(self.entries@)
    }

    /// No field.
    pub fn new() -> (f: Self)
        ensures
            f@ == Map::<Seq<char>, Seq<char>>::empty(),
            f.fields().len() == 0,
    {
        let f = FormData { entries: Vec::new() };
        assert(pairs_view(f.entries@) =~= Seq::<(Seq<char>, Seq<char>)>::empty());
        f
    }

    /// Sets `key` to `value`, replacing the value that `key` had.
    pub fn insert(&mut self, key: String, value: String)
        ensures
            final(self)@ == old(self)@.insert(key@, value@),
    {
        proof {
            use_type_invariant(&*self);
        }
        let ghost ps = pairs_view(self.entries@);
        let mut entries: Vec<(String, String)> = Vec::new();
        std::mem::swap(&mut entries, &mut self.entries);
        let n = entries.len();
        let mut i: usize = 0;
        while i < n
            invariant
                n == entries@.len(),
                ps == pairs_view(entries@),
                distinct_keys(ps),
                pairs_map(ps) == old(self)@,
                i <= n,
                forall|j: int| 0 <= j < i ==> #[trigger] ps[j].0 != key@,
            decreases n - i,
        {
            if entries[i].0 == key {
                proof {
                    lemma_pairs_map_update(ps, i as int, value@);
                }
                entries.set(i, (key, value));
                proof {
                    assert(pairs_view(entries@) =~= ps.update(i as int, (ps[i as int].0, value@)));
                    assert(distinct_keys(pairs_view(entries@))) by {
                        assert forall|a: int, b: int|
                            0 <= a < n && 0 <= b < n && a != b implies #[trigger] pairs_view(
                            entries@,
                        )[a].0 != #[trigger] pairs_view(entries@)[b].0 by {
                            assert(ps[a].0 != ps[b].0);
                        }
                    }
                }
                self.entries = entries;
                return;
            }
            i += 1;
        }
        proof {
            lemma_pairs_map_absent(ps, key@);
        }
        entries.push((key, value));
        proof {
            let qs = pairs_view(entries@);
            assert(qs =~= ps.push((key@, value@)));
            assert(qs.drop_last() =~= ps);
            assert(distinct_keys(qs)) by {
                assert forall|a: int, b: int|
                    0 <= a < qs.len() && 0 <= b < qs.len() && a != b implies #[trigger] qs[a].0
                    != #[trigger] qs[b].0 by {
                    if a < n && b < n {
                        assert(ps[a].0 != ps[b].0);
                    } else if a == n {
                        assert(ps[b].0 != key@);
                    } else {
                        assert(ps[a].0 != key@);
                    }
                }
            }
        }
        self.entries = entries;
    }

    /// The fields, each key once.
    pub fn pairs(&self) -> (ps: &Vec<(String, String)>)
        ensures
            pairs_map(pairs_view(ps@)) == self@,
            distinct_keys(pairs_view(ps@)),
            pairs_view(ps@) == self.fields(),
    {
        proof {
            use_type_invariant(self);
        }
        &self.entries
    }
}

} // verus!
