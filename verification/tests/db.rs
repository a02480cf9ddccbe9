use rss2pan::db::{item_row, reset_status_sql, site_ready, update_status_sql};
use rss2pan::rss_site::MagnetItem;

#[test]
fn save_items_test() {
    assert_eq!(
        update_status_sql("115.com", "abnormalOp", false),
        "UPDATE sites_status SET abnormalOp = 0 WHERE name = \"115.com\""
    );
}

#[test]
fn status_statements() {
    assert_eq!(
        update_status_sql("115.com", "needLogin", true),
        "UPDATE sites_status SET needLogin = 1 WHERE name = \"115.com\""
    );
    assert_eq!(
        reset_status_sql("114.com"),
        "UPDATE sites_status SET abnormalOp = 0,needLogin = 0 WHERE name = \"114.com\""
    );
}

#[test]
fn readiness() {
    assert!(site_ready(Some((0, 0))));
    assert!(!site_ready(Some((1, 0))));
    assert!(!site_ready(Some((0, 1))));
    assert!(site_ready(None));
}

#[test]
fn row_of_an_item() {
    let item = MagnetItem {
        title: "t".to_string(),
        link: "l".to_string(),
        magnet: "m".to_string(),
        description: Some("d".to_string()),
        content: None,
    };
    assert_eq!(item_row(&item, "now"), vec!["l", "t", "", "m", "now", "now"]);
}

#[test]
fn update_status_test() {
    let host = "115.com";
    let key = "abnormalOp";
    let value = false;
    let r = update_status_sql(host, key, value);
    assert_eq!(r, "UPDATE sites_status SET abnormalOp = 0 WHERE name = \"115.com\"");
}

#[test]
fn is_ready_test() {
    // A site without a row yet, such as "114.com", is ready.
    assert!(site_ready(None));
}
