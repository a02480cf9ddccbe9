//! The 115 offline-download service: the requests that add download
//! tasks, what an answer means, and which items of a feed still have to be
//! sent.

use vstd::prelude::*;
use crate::form::{FormData, decimal, decimal_string, url_key_string};
use crate::m115::{
    lemma_not_url_key, lemma_with_urls_insert, lemma_with_urls_remove, offline_params, with_cid,
    with_urls,
};
use crate::rss_site::MagnetItem;
use crate::text::opt_view;

verus! {

/// The 115 offline-download service.
pub struct Yiyiwu;

/// An answer of the service.
#[derive(Debug)]
pub struct Response {
    pub errcode: u32,
    pub errno: Option<u32>,
    pub state: Option<bool>,
    pub error_msg: Option<String>,
}

/// The signature that goes with every posted form.
pub struct Sign {
    pub sign: String,
    pub time: u32,
}

/// A request to the service: where it goes and the form it posts.
pub struct OfflineTask {
    pub url: String,
    pub form: FormData,
}

/// What an answer to an add-task request means for the batch.
#[derive(Debug, Clone, Copy, PartialEq, Eq)]
pub enum TaskOutcome {
    /// The tasks were added: the batch is saved.
    Added,
    /// The account hit the abnormal-operation check: nothing more can be
    /// added until it is cleared in a browser.
    Abnormal,
    /// The service refused the links.
    WrongLinks,
    /// The tasks exist already: the batch is saved.
    Exists,
    /// Any other answer.
    Failed,
}

/// The address that adds one task.
pub open spec fn add_task_url_endpoint() -> Seq<char> {
    "https://115.com/web/lixian/?ct=lixian&ac=add_task_url"@
}

/// The address that adds several tasks.
pub open spec fn add_task_urls_endpoint() -> Seq<char> {
    "https://115.com/web/lixian/?ct=lixian&ac=add_task_urls"@
}

/// The form that adds one task: its url, and the folder when one is given.
pub open spec fn task_url_form(task: Seq<char>, cid: Option<Seq<char>>) -> Map<Seq<char>, Seq<char>> {
    let m = Map::empty().insert("url"@, task);
    match cid {
        Some(c) => m.insert("wp_path_id"@, c),
        None => m,
    }
}

/// The form that adds several tasks: the folder when one is given, and
/// `url[i]` for the `i`th task.
pub open spec fn batch_task_form(tasks: Seq<Seq<char>>, cid: Option<Seq<char>>) -> Map<Seq<char>, Seq<char>> {
    let m = match cid {
        Some(c) => Map::empty().insert("wp_path_id"@, c),
        None => Map::empty(),
    };
    with_urls(m, tasks)
}

/// The strs as character sequences.
pub open spec fn strs_view(v: Seq<&str>) -> Seq<Seq<char>> {
    v.map_values(|s: &str| s@)
}

/// What the service's error code means for the batch.
pub open spec fn outcome_of(errcode: u32) -> TaskOutcome {
    if errcode == 0 {
        TaskOutcome::Added
    } else if errcode == 911 {
        TaskOutcome::Abnormal
    } else if errcode == 10004 {
        TaskOutcome::WrongLinks
    } else if errcode == 10008 {
        TaskOutcome::Exists
    } else {
        TaskOutcome::Failed
    }
}

/// The magnet links of the items not saved yet, in order.
pub open spec fn pending_spec(items: Seq<MagnetItem>, saved: Seq<bool>) -> Seq<Seq<char>>
    decreases items.len(),
{
    if items.len() == 0 {
        Seq::empty()
    } else {
        let rest = pending_spec(items.drop_last(), saved.take(items.len() - 1));
        if saved[items.len() - 1] {
            rest
        } else {
            rest.push(items.last().magnet@)
        }
    }
}

/// The tasks of a batch are exactly the magnet links of its unsaved items,
/// in order: every unsaved item is sent and no saved one, and there are as
/// many tasks as there are unsaved items.
pub proof fn lemma_pending_are_the_unsaved(items: Seq<MagnetItem>, saved: Seq<bool>)
    requires
        saved.len() == items.len(),
    ensures
        pending_spec(items, saved) == Seq::new(
            items.len(),
            |i: int| (items[i].magnet@, saved[i]),
        ).filter(|p: (Seq<char>, bool)| !p.1).map_values(|p: (Seq<char>, bool)| p.0),
        pending_spec(items, saved).len() == saved.filter(|b: bool| !b).len(),
        forall|j: int|
            0 <= j < items.len() && !saved[j] ==> pending_spec(items, saved).contains(
                #[trigger] items[j].magnet@,
            ),
        forall|t: Seq<char>|
            pending_spec(items, saved).contains(t) ==> exists|j: int|
                0 <= j < items.len() && !saved[j] && #[trigger] items[j].magnet@ == t,
    decreases items.len(),
{
    reveal(Seq::filter);
    let pairs = Seq::new(items.len(), |i: int| (items[i].magnet@, saved[i]));
    let keep = |p: (Seq<char>, bool)| !p.1;
    let first = |p: (Seq<char>, bool)| p.0;
    let unsaved = |b: bool| !b;
    if items.len() > 0 {
        let n = items.len() - 1;
        let di = items.drop_last();
        let ds = saved.take(n);
        lemma_pending_are_the_unsaved(di, ds);
        let dpairs = Seq::new(di.len(), |i: int| (di[i].magnet@, ds[i]));
        assert(pairs.drop_last() =~= dpairs);
        assert(saved.drop_last() =~= ds);
        let rest = pending_spec(di, ds);
        assert(pairs.last() == (items.last().magnet@, saved[n]));
        if saved[n] {
            assert(pairs.filter(keep) == dpairs.filter(keep));
        } else {
            assert(pairs.filter(keep) == dpairs.filter(keep).push(pairs.last()));
            assert(pairs.filter(keep).map_values(first) =~= dpairs.filter(keep).map_values(first).push(
                items.last().magnet@,
            ));
        }
        assert forall|j: int|
            0 <= j < items.len() && !saved[j] implies pending_spec(items, saved).contains(
                #[trigger] items[j].magnet@,
            ) by {
            if j < n {
                assert(di[j] == items[j] && ds[j] == saved[j]);
                assert(rest.contains(di[j].magnet@));
                let k = choose|k: int| 0 <= k < rest.len() && rest[k] == di[j].magnet@;
                if !saved[n] {
                    assert(pending_spec(items, saved)[k] == rest[k]);
                }
            } else {
                assert(pending_spec(items, saved)[rest.len() as int] == items[j].magnet@);
            }
        }
        assert forall|t: Seq<char>| pending_spec(items, saved).contains(t) implies exists|j: int|
            0 <= j < items.len() && !saved[j] && #[trigger] items[j].magnet@ == t by {
            let k = choose|k: int| 0 <= k < pending_spec(items, saved).len() && pending_spec(items, saved)[k] == t;
            if k < rest.len() {
                assert(rest[k] == t);
                assert(rest.contains(t));
                let j = choose|j: int| 0 <= j < di.len() && !ds[j] && #[trigger] di[j].magnet@ == t;
                assert(di[j] == items[j] && ds[j] == saved[j]);
            } else {
                assert(items[n as int].magnet@ == t);
            }
        }
    } else {
        assert(pairs =~= Seq::<(Seq<char>, bool)>::empty());
        assert(pairs.filter(keep).map_values(first) =~= Seq::<Seq<char>>::empty());
    }
}

/// The form that adds several tasks is that of an offline request of the
/// client for the same urls and folder, without its `uid`, `app_ver` and
/// `ac` fields.
pub proof fn lemma_batch_form_is_offline_params(
    uid: Seq<char>,
    app_ver: Seq<char>,
    tasks: Seq<Seq<char>>,
    cid: Option<Seq<char>>,
)
    ensures
        batch_task_form(tasks, cid) == offline_params(uid, app_ver, tasks, cid).remove("uid"@).remove(
            "app_ver"@,
        ).remove("ac"@),
{
    reveal_strlit("uid");
    reveal_strlit("app_ver");
    reveal_strlit("ac");
    reveal_strlit("wp_path_id");
    lemma_not_url_key("uid"@);
    lemma_not_url_key("app_ver"@);
    lemma_not_url_key("ac"@);
    lemma_not_url_key("wp_path_id"@);
    let e = Map::<Seq<char>, Seq<char>>::empty();
    let b = e.insert("uid"@, uid).insert("app_ver"@, app_ver).insert("ac"@, "add_task_urls"@);
    let w = with_urls(b, tasks);
    lemma_with_urls_remove(b, tasks, "uid"@);
    lemma_with_urls_remove(b.remove("uid"@), tasks, "app_ver"@);
    lemma_with_urls_remove(b.remove("uid"@).remove("app_ver"@), tasks, "ac"@);
    assert(b.remove("uid"@).remove("app_ver"@).remove("ac"@) =~= e);
    let r = w.remove("uid"@).remove("app_ver"@).remove("ac"@);
    assert(r == with_urls(e, tasks));
    match cid {
        Some(c) => {
            assert("wp_path_id"@.len() == 10 && "uid"@.len() == 3 && "app_ver"@.len() == 7
                && "ac"@.len() == 2);
            lemma_with_urls_insert(e, tasks, "wp_path_id"@, c);
            assert(with_cid(w, cid).remove("uid"@).remove("app_ver"@).remove("ac"@) =~= r.insert(
                "wp_path_id"@,
                c,
            ));
        },
        None => {},
    }
}

/// What the run does after the answer to a batch.
#[derive(Debug, Clone, Copy, PartialEq, Eq)]
pub enum BatchAction {
    /// Stop the run with the abnormal-operation error, saving nothing.
    Stop,
    /// Save every item of the batch as sent, then go on.
    SaveChunk,
    /// Go on to the next batch.
    Next,
}

/// What the run does after an answer.
pub open spec fn action_of(outcome: TaskOutcome) -> BatchAction {
    match outcome {
        TaskOutcome::Abnormal => BatchAction::Stop,
        TaskOutcome::Added => BatchAction::SaveChunk,
        TaskOutcome::Exists => BatchAction::SaveChunk,
        _ => BatchAction::Next,
    }
}

/// What each answer of the service makes the run do: a batch is saved
/// exactly on the codes 0 (added) and 10008 (the tasks exist), and the run
/// stops exactly on 911 (abnormal operation).
pub proof fn lemma_answers(errcode: u32)
    ensures
        (action_of(outcome_of(errcode)) == BatchAction::SaveChunk) <==> (errcode == 0 || errcode
            == 10008),
        (action_of(outcome_of(errcode)) == BatchAction::Stop) <==> errcode == 911,
        (outcome_of(errcode) == TaskOutcome::WrongLinks) <==> errcode == 10004,
        (outcome_of(errcode) == TaskOutcome::Added) <==> errcode == 0,
{
}

/// The address of the request that adds `tasks`.
pub open spec fn task_request_url(tasks: Seq<Seq<char>>) -> Seq<char> {
    if tasks.len() == 1 {
        add_task_url_endpoint()
    } else {
        add_task_urls_endpoint()
    }
}

/// The form of the request that adds `tasks`.
pub open spec fn task_request_form(tasks: Seq<Seq<char>>, cid: Option<Seq<char>>) -> Map<Seq<char>, Seq<char>> {
    if tasks.len() == 1 {
        task_url_form(tasks[0], cid)
    } else {
        batch_task_form(tasks, cid)
    }
}

/// The most tasks that one request adds.
pub const BATCH_SIZE: usize = 200;

impl TaskOutcome {
    /// Whether the items of the batch are saved as sent.
    pub open spec fn saves_items_spec(&self) -> bool {
        *self == TaskOutcome::Added || *self == TaskOutcome::Exists
    }

    /// Whether the run stops here.
    pub open spec fn stops_run_spec(&self) -> bool {
        *self == TaskOutcome::Abnormal
    }

    /// Whether the items of the batch are saved as sent.
    pub fn saves_items(&self) -> (b: bool)
        ensures
            b == (*self == TaskOutcome::Added || *self == TaskOutcome::Exists),
    {
        match self {
            TaskOutcome::Added => true,
            TaskOutcome::Exists => true,
            _ => false,
        }
    }

    /// Whether the run stops here: after the abnormal-operation answer no
    /// further batch is sent.
    pub fn stops_run(&self) -> (b: bool)
        ensures
            b == (*self == TaskOutcome::Abnormal),
    {
        match self {
            TaskOutcome::Abnormal => true,
            _ => false,
        }
    }
}

impl Yiyiwu {
    /// The request that adds the download of `task`, into the folder
    /// `cid` when one is given.
    pub fn add_task_url(&self, task: &str, cid: Option<String>) -> (r: OfflineTask)
        ensures
            r.url@ == add_task_url_endpoint(),
            r.form@ == task_url_form(task@, opt_view(cid)),
    {
        let mut data = FormData::new();
        data.insert(String::from_str("url"), String::from_str(task));
        if let Some(cid) = cid {
            data.insert(String::from_str("wp_path_id"), cid);
        }
        OfflineTask { url: String::from_str("https://115.com/web/lixian/?ct=lixian&ac=add_task_url"), form: data }
    }

    /// The request that adds the downloads of `tasks`, into the folder
    /// `cid` when one is given; a single task goes by `add_task_url`.
    pub fn add_batch_task(&self, tasks: &[&str], cid: Option<String>) -> (r: OfflineTask)
        ensures
            tasks@.len() == 1 ==> r.url@ == add_task_url_endpoint() && r.form@ == task_url_form(
                tasks@[0]@,
                opt_view(cid),
            ),
            tasks@.len() != 1 ==> r.url@ == add_task_urls_endpoint() && r.form@ == batch_task_form(
                strs_view(tasks@),
                opt_view(cid),
            ),
    {
        if tasks.len() == 1 {
            return self.add_task_url(tasks[0], cid);
        }
        let mut data = FormData::new();
        if let Some(cid) = cid {
            data.insert(String::from_str("wp_path_id"), cid);
        }
        let ghost base = data@;
        let n = tasks.len();
        let mut i: usize = 0;
        while i < n
            invariant
                n == tasks@.len(),
                i <= n,
                data@ == with_urls(base, strs_view(tasks@).take(i as int)),
            decreases n - i,
        {
            data.insert(url_key_string(i as u64), String::from_str(tasks[i]));
            proof {
                assert(strs_view(tasks@).take(i + 1).drop_last() =~= strs_view(tasks@).take(i as int));
            }
            i += 1;
        }
        proof {
            assert(strs_view(tasks@).take(n as int) =~= strs_view(tasks@));
        }
        OfflineTask { url: String::from_str("https://115.com/web/lixian/?ct=lixian&ac=add_task_urls"), form: data }
    }

    /// The form with the signature: `sign` and `time` set.
    pub fn sign_form(form: FormData, sign: Sign) -> (r: FormData)
        ensures
            r@ == form@.insert("sign"@, sign.sign@).insert("time"@, decimal(sign.time as nat)),
    {
        let mut data = form;
        data.insert(String::from_str("sign"), sign.sign);
        data.insert(String::from_str("time"), decimal_string(sign.time as u64));
        data
    }

    /// The request for a batch of items, `saved[i]` telling whether
    /// `items[i]` is saved: none when every item is saved (the batch is
    /// skipped), else the request that adds the magnet links of the items
    /// not saved yet, in order, into the folder `cid` when one is given.
    pub fn batch_request(&self, items: &[MagnetItem], saved: &[bool], cid: Option<String>) -> (r: Option<OfflineTask>)
        requires
            saved@.len() == items@.len(),
        ensures
            r is None <==> pending_spec(items@, saved@).len() == 0,
            r matches Some(t) ==> t.url@ == task_request_url(pending_spec(items@, saved@)) && t.form@
                == task_request_form(pending_spec(items@, saved@), opt_view(cid)),
    {
        let pending = Self::pending_magnets(items, saved);
        if pending.len() == 0 {
            return None;
        }
        let mut tasks: Vec<&str> = Vec::new();
        let n = pending.len();
        let mut i: usize = 0;
        while i < n
            invariant
                n == pending@.len(),
                i <= n,
                tasks@.len() == i,
                forall|j: int| 0 <= j < i ==> (#[trigger] tasks@[j])@ == pending@[j]@,
            decreases n - i,
        {
            tasks.push(pending[i].as_str());
            i += 1;
        }
        proof {
            assert(strs_view(tasks@) =~= pending.deep_view());
        }
        Some(self.add_batch_task(tasks.as_slice(), cid))
    }

    /// What the run does after an answer: stop on the abnormal-operation
    /// answer, save the batch when its tasks were added or exist, else go
    /// on.
    pub fn after_answer(outcome: TaskOutcome) -> (a: BatchAction)
        ensures
            a == action_of(outcome),
            (a == BatchAction::Stop) == outcome.stops_run_spec(),
            (a == BatchAction::SaveChunk) == outcome.saves_items_spec(),
    {
        if outcome.stops_run() {
            BatchAction::Stop
        } else if outcome.saves_items() {
            BatchAction::SaveChunk
        } else {
            BatchAction::Next
        }
    }

    /// What the service's error code means for the batch.
    pub fn outcome(errcode: u32) -> (o: TaskOutcome)
        ensures
            o == outcome_of(errcode),
    {
        if errcode == 0 {
            TaskOutcome::Added
        } else if errcode == 911 {
            TaskOutcome::Abnormal
        } else if errcode == 10004 {
            TaskOutcome::WrongLinks
        } else if errcode == 10008 {
            TaskOutcome::Exists
        } else {
            TaskOutcome::Failed
        }
    }

    /// Whether the upload-info answer says that the account is logged in.
    pub fn is_logged_errno(errno: u64) -> (b: bool)
        ensures
            b == (errno == 0),
    {
        errno == 0
    }

    /// The magnet links of the items that are not saved yet, in order:
    /// `saved[i]` tells whether `items[i]` is saved.
    pub fn pending_magnets(items: &[MagnetItem], saved: &[bool]) -> (tasks: Vec<String>)
        requires
            saved@.len() == items@.len(),
        ensures
            tasks.deep_view() == pending_spec(items@, saved@),
            forall|i: int|
                0 <= i < tasks@.len() ==> exists|j: int|
                    0 <= j < items@.len() && !saved@[j] && #[trigger] tasks@[i]@ == items@[j].magnet@,
    {
        let mut tasks: Vec<String> = Vec::new();
        let n = items.len();
        let mut i: usize = 0;
        while i < n
            invariant
                n == items@.len(),
                saved@.len() == n,
                i <= n,
                tasks.deep_view() == pending_spec(items@.take(i as int), saved@.take(i as int)),
                forall|k: int|
                    0 <= k < tasks@.len() ==> exists|j: int|
                        0 <= j < i && !saved@[j] && #[trigger] tasks@[k]@ == items@[j].magnet@,
            decreases n - i,
        {
            proof {
                let it = items@.take(i + 1);
                assert(it.drop_last() =~= items@.take(i as int));
                assert(saved@.take(i + 1).take(i as int) =~= saved@.take(i as int));
                assert(it.last() == items@[i as int]);
                assert(saved@.take(i + 1)[i as int] == saved@[i as int]);
            }
            if !saved[i] {
                let ghost before = tasks@;
                tasks.push(items[i].magnet.clone());
                proof {
                    assert(tasks.deep_view() =~= pending_spec(items@.take(i as int), saved@.take(i as int)).push(items@[i as int].magnet@));
                    assert forall|k: int| 0 <= k < tasks@.len() implies exists|j: int|
                        0 <= j < i + 1 && !saved@[j] && #[trigger] tasks@[k]@ == items@[j].magnet@ by {
                        if k < before.len() {
                            assert(tasks@[k] == before[k]);
                        } else {
                            assert(tasks@[k]@ == items@[i as int].magnet@);
                        }
                    }
                }
            }
            i += 1;
        }
        proof {
            assert(items@.take(n as int) =~= items@);
            assert(saved@.take(n as int) =~= saved@);
        }
        tasks
    }

    /// The consecutive ranges of at most `BATCH_SIZE` items that cover
    /// `0..len`, in order.
    pub fn batch_ranges(len: usize) -> (ranges: Vec<(usize, usize)>)
        ensures
            forall|i: int|
                0 <= i < ranges@.len() ==> {
                    &&& (#[trigger] ranges@[i]).0 < ranges@[i].1
                    &&& ranges@[i].1 - ranges@[i].0 <= BATCH_SIZE
                    &&& ranges@[i].0 == i * BATCH_SIZE
                    &&& ranges@[i].1 == if ranges@[i].0 + BATCH_SIZE < len {
                        ranges@[i].0 + BATCH_SIZE
                    } else {
                        len as int
                    }
                },
            ranges@.len() == (len + BATCH_SIZE - 1) / (BATCH_SIZE as int),
    {
        let mut ranges: Vec<(usize, usize)> = Vec::new();
        let mut start: usize = 0;
        while start < len
            invariant
                start <= len,
                start == if ranges@.len() * BATCH_SIZE < len {
                    ranges@.len() * BATCH_SIZE
                } else {
                    len as int
                },
                ranges@.len() == 0 || (ranges@.len() - 1) * BATCH_SIZE < len,
                forall|i: int|
                    0 <= i < ranges@.len() ==> {
                        &&& (#[trigger] ranges@[i]).0 < ranges@[i].1
                        &&& ranges@[i].1 - ranges@[i].0 <= BATCH_SIZE
                        &&& ranges@[i].0 == i * BATCH_SIZE
                        &&& ranges@[i].1 == if ranges@[i].0 + BATCH_SIZE < len {
                            ranges@[i].0 + BATCH_SIZE
                        } else {
                            len as int
                        }
                    },
            decreases len - start,
        {
            let end = if len - start > BATCH_SIZE {
                start + BATCH_SIZE
            } else {
                len
            };
            ranges.push((start, end));
            start = end;
        }
        proof {
            let k = ranges@.len();
            assert(k * 200 >= len && (k == 0 || (k - 1) * 200 < len)) by {
                if k > 0 {
                    assert(ranges@[k - 1].0 == (k - 1) * 200);
                }
            }
            assert((len + 199) / 200 == k) by (nonlinear_arith)
                requires
                    k * 200 >= len,
                    k == 0 || (k - 1) * 200 < len,
                    len >= 0,
            ;
        }
        ranges
    }
}

} // verus!
