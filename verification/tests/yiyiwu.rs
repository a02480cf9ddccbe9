use rss2pan::form::FormData;
use rss2pan::rss_site::MagnetItem;
use rss2pan::m115::gen_offline_params;
use rss2pan::yiyiwu::{BatchAction, Sign, TaskOutcome, Yiyiwu};

fn sorted(f: &FormData) -> Vec<(String, String)> {
    let mut v = f.pairs().clone();
    v.sort();
    v
}

fn pair(k: &str, v: &str) -> (String, String) {
    (k.to_string(), v.to_string())
}

#[test]
fn one_task_goes_by_add_task_url() {
    let t = Yiyiwu.add_batch_task(&["magnet:?xt=urn:btih:1"], Some("7".to_string()));
    assert_eq!(t.url, "https://115.com/web/lixian/?ct=lixian&ac=add_task_url");
    assert_eq!(sorted(&t.form), vec![pair("url", "magnet:?xt=urn:btih:1"), pair("wp_path_id", "7")]);
    let t = Yiyiwu.add_task_url("magnet:?xt=urn:btih:1", None);
    assert_eq!(sorted(&t.form), vec![pair("url", "magnet:?xt=urn:btih:1")]);
}

#[test]
fn several_tasks_go_by_add_task_urls() {
    let t = Yiyiwu.add_batch_task(&["m:a", "m:b", "m:c"], None);
    assert_eq!(t.url, "https://115.com/web/lixian/?ct=lixian&ac=add_task_urls");
    assert_eq!(sorted(&t.form), vec![pair("url[0]", "m:a"), pair("url[1]", "m:b"), pair("url[2]", "m:c")]);
}

#[test]
fn signed_form_has_sign_and_time() {
    let t = Yiyiwu.add_task_url("m:a", None);
    let f = Yiyiwu::sign_form(t.form, Sign { sign: "abc".to_string(), time: 1700000000 });
    assert_eq!(sorted(&f), vec![pair("sign", "abc"), pair("time", "1700000000"), pair("url", "m:a")]);
}

#[test]
fn error_codes() {
    assert_eq!(Yiyiwu::outcome(0), TaskOutcome::Added);
    assert_eq!(Yiyiwu::outcome(911), TaskOutcome::Abnormal);
    assert_eq!(Yiyiwu::outcome(10004), TaskOutcome::WrongLinks);
    assert_eq!(Yiyiwu::outcome(10008), TaskOutcome::Exists);
    assert_eq!(Yiyiwu::outcome(1), TaskOutcome::Failed);
    assert!(TaskOutcome::Added.saves_items());
    assert!(TaskOutcome::Exists.saves_items());
    assert!(!TaskOutcome::WrongLinks.saves_items());
    assert!(!TaskOutcome::Abnormal.saves_items());
    assert!(TaskOutcome::Abnormal.stops_run());
    assert!(!TaskOutcome::Added.stops_run());
    assert!(!TaskOutcome::Failed.stops_run());
    assert!(Yiyiwu::is_logged_errno(0));
    assert!(!Yiyiwu::is_logged_errno(99));
}

fn magnet(m: &str) -> MagnetItem {
    MagnetItem {
        title: String::new(),
        link: String::new(),
        magnet: m.to_string(),
        description: None,
        content: None,
    }
}

#[test]
fn saved_items_are_not_sent_again() {
    let items = vec![magnet("m:1"), magnet("m:2"), magnet("m:3")];
    assert_eq!(Yiyiwu::pending_magnets(&items, &[false, true, false]), vec!["m:1", "m:3"]);
    assert_eq!(Yiyiwu::pending_magnets(&items, &[true, true, true]), Vec::<String>::new());
}

#[test]
fn batches_of_two_hundred() {
    assert_eq!(Yiyiwu::batch_ranges(0), vec![]);
    assert_eq!(Yiyiwu::batch_ranges(5), vec![(0, 5)]);
    assert_eq!(Yiyiwu::batch_ranges(200), vec![(0, 200)]);
    assert_eq!(Yiyiwu::batch_ranges(401), vec![(0, 200), (200, 400), (400, 401)]);
}

#[test]
fn batch_requests_skip_saved_items() {
    let items = vec![magnet("m:1"), magnet("m:2"), magnet("m:3")];
    assert!(Yiyiwu.batch_request(&items, &[true, true, true], None).is_none());
    let one = Yiyiwu.batch_request(&items, &[true, false, true], Some("9".to_string())).unwrap();
    assert_eq!(one.url, "https://115.com/web/lixian/?ct=lixian&ac=add_task_url");
    assert_eq!(sorted(&one.form), vec![pair("url", "m:2"), pair("wp_path_id", "9")]);
    let two = Yiyiwu.batch_request(&items, &[false, true, false], None).unwrap();
    assert_eq!(two.url, "https://115.com/web/lixian/?ct=lixian&ac=add_task_urls");
    assert_eq!(sorted(&two.form), vec![pair("url[0]", "m:1"), pair("url[1]", "m:3")]);
}

#[test]
fn actions_after_answers() {
    assert_eq!(Yiyiwu::after_answer(TaskOutcome::Abnormal), BatchAction::Stop);
    assert_eq!(Yiyiwu::after_answer(TaskOutcome::Added), BatchAction::SaveChunk);
    assert_eq!(Yiyiwu::after_answer(TaskOutcome::Exists), BatchAction::SaveChunk);
    assert_eq!(Yiyiwu::after_answer(TaskOutcome::WrongLinks), BatchAction::Next);
    assert_eq!(Yiyiwu::after_answer(TaskOutcome::Failed), BatchAction::Next);
}

#[test]
fn batch_form_is_the_client_form_without_its_own_fields() {
    let tasks = ["m:1", "m:2"];
    let batch = Yiyiwu.add_batch_task(&tasks, Some("7".to_string()));
    let params = gen_offline_params(
        "42".to_string(),
        "1.0".to_string(),
        tasks.iter().map(|t| t.to_string()).collect(),
        Some("7".to_string()),
    );
    let rest: Vec<(String, String)> = sorted(&params)
        .into_iter()
        .filter(|(k, _)| k != "uid" && k != "app_ver" && k != "ac")
        .collect();
    assert_eq!(sorted(&batch.form), rest);
}
