//! What the item store writes and decides: the statements that change a
//! site's status, the row of a saved item, and whether a site is ready.

use vstd::prelude::*;
use crate::rss_site::MagnetItem;

verus! {

/// An item sent to the offline service.
pub struct MagnetOffline {
    item_id: u32,
    yiyiwu: u8,
}

/// The state of a site: whether it asks for a login, and whether it has
/// flagged the account for abnormal operation.
pub struct SiteStatus {
    host: String,
    need_login: bool,
    abnormal_op: bool,
}

/// The statement that sets the status flag `key` of the site `host`.
pub open spec fn update_status_statement(host: Seq<char>, key: Seq<char>, value: bool) -> Seq<char> {
    "UPDATE sites_status SET "@ + key + " = "@ + (if value {
        "1"@
    } else {
        "0"@
    }) + " WHERE name = \""@ + host + "\""@
}

/// The statement that clears both status flags of the site `name`.
pub open spec fn reset_status_statement(name: Seq<char>) -> Seq<char> {
    "UPDATE sites_status SET abnormalOp = 0,needLogin = 0 WHERE name = \""@ + name + "\""@
}

/// The statement that sets the status flag `key` of the site `host`.
pub fn update_status_sql(host: &str, key: &str, value: bool) -> (s: String)
    ensures
        s@ == update_status_statement(host@, key@, value),
{
    let v = if value {
        "1"
    } else {
        "0"
    };
    String::from_str("UPDATE sites_status SET ").concat(key).concat(" = ").concat(v).concat(
        " WHERE name = \"",
    ).concat(host).concat("\"")
}

/// The statement that clears both status flags of the site `name`.
pub fn reset_status_sql(name: &str) -> (s: String)
    ensures
        s@ == reset_status_statement(name@),
{
    String::from_str("UPDATE sites_status SET abnormalOp = 0,needLogin = 0 WHERE name = \"").concat(
        name,
    ).concat("\"")
}

/// Whether a site is ready, from its stored `(needLogin, abnormalOp)`
/// flags: ready when neither is set, and when the site has no row yet
/// (`None`; the store then adds a row with both flags clear).
pub fn site_ready(status: Option<(u8, u8)>) -> (ready: bool)
    ensures
        ready == match status {
            Some((need_login, abnormal_op)) => need_login == 0 && abnormal_op == 0,
            None => true,
        },
{
    match status {
        Some((0, 0)) => true,
        Some(_) => false,
        None => true,
    }
}

/// The values of the row that saves an item at time `now`: link, title,
/// content (empty when there is none), magnet link, creation time and
/// update time.
pub fn item_row(item: &MagnetItem, now: &str) -> (row: Vec<String>)
    ensures
        row.deep_view() == seq![
            item.link@,
            item.title@,
            match item.content {
                Some(c) => c@,
                None => Seq::<char>::empty(),
            },
            item.magnet@,
            now@,
            now@,
        ],
{
    let mut row: Vec<String> = Vec::new();
    row.push(item.link.clone());
    row.push(item.title.clone());
    row.push(
        match &item.content {
            Some(c) => c.clone(),
            None => String::new(),
        },
    );
    row.push(item.magnet.clone());
    row.push(String::from_str(now));
    row.push(String::from_str(now));
    proof {
        assert(row.deep_view() =~= seq![
            item.link@,
            item.title@,
            match item.content {
                Some(c) => c@,
                None => Seq::<char>::empty(),
            },
            item.magnet@,
            now@,
            now@,
        ]);
    }
    row
}

} // verus!
