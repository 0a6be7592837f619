use chrono::Datelike;
use stockgo::config::{CodeLists, Config, ConfigEntry};
use stockgo::manager::{DownloadError, Manager};

fn day(y: i32, m: u32, d: u32) -> i32 {
    chrono::NaiveDate::from_ymd_opt(y, m, d).unwrap().num_days_from_ce()
}

fn entry(url: &str, folder: &str, label: &str, status: &str) -> ConfigEntry {
    ConfigEntry { url: url.to_string(), folder: folder.to_string(), label: label.to_string(), status: status.to_string() }
}

fn strings(items: &[&str]) -> Vec<String> {
    items.iter().map(|s| s.to_string()).collect()
}

fn pairs(items: &[(&str, &str)]) -> Vec<(String, String)> {
    items.iter().map(|(k, v)| (k.to_string(), v.to_string())).collect()
}

fn sample() -> Manager {
    Manager::new(Config::new(vec![
        ("daily".to_string(), entry("http://x.com/d?date=@date", "daily", "date:yyy%m%d:D,@date", "20240101")),
        ("stocks".to_string(), entry("http://y.com/s/@num", "stocks", "stock:listed,@num", "20240102")),
        ("form".to_string(), entry("http://p.com/q@Post:a=@num", "form", "stock:OTC,@num", "20240102")),
    ]))
}

fn lists() -> CodeLists {
    CodeLists {
        listed: strings(&["2330\u{3000}TSMC", "2317\u{3000}Hon Hai"]),
        otc: strings(&["6488\u{3000}GlobalWafers"]),
        etf: Vec::new(),
    }
}

#[test]
fn lookup_finds_the_first_value() {
    let l = pairs(&[("a", "1"), ("b", "2"), ("a", "3")]);
    assert_eq!(Manager::lookup(&l, "a"), "1");
    assert_eq!(Manager::lookup(&l, "c"), "");
}

#[test]
fn adding_a_new_title_appends_a_list() {
    let mut m = sample();
    let added = m.add_config(&pairs(&[("title", "news"), ("URL", "http://n"), ("label", "l"), ("status", "s")]));
    assert!(added);
    assert_eq!(m.config.titles, strings(&["daily", "stocks", "form", "news"]));
    assert_eq!(m.config.position("news"), Some(3));
    let e = &m.config.entries[3];
    assert_eq!((e.url.as_str(), e.folder.as_str(), e.label.as_str(), e.status.as_str()), ("http://n", "news", "l", "s"));
}

#[test]
fn adding_an_existing_title_changes_nothing() {
    let mut m = sample();
    let added = m.add_config(&pairs(&[("title", "daily"), ("URL", "http://other")]));
    assert!(!added);
    assert_eq!(m.config.titles.len(), 3);
    assert_eq!(m.config.entries[0].url, "http://x.com/d?date=@date");
}

#[test]
fn add_then_delete_gives_the_lists_back() {
    let mut m = sample();
    let before = m.config.titles.clone();
    assert!(m.add_config(&pairs(&[("title", "news"), ("URL", "http://n"), ("label", "l"), ("status", "s")])));
    assert_eq!(m.delete_config(3), Some("news".to_string()));
    assert_eq!(m.config.titles, before);
    assert_eq!(m.config.entries.len(), 3);
    assert_eq!(m.config.entries[2].url, "http://p.com/q@Post:a=@num");
}

#[test]
fn deleting_past_the_end_changes_nothing() {
    let mut m = sample();
    assert_eq!(m.delete_config(7), None);
    assert_eq!(m.config.titles.len(), 3);
    assert_eq!(m.delete_config(0), Some("daily".to_string()));
    assert_eq!(m.config.titles, strings(&["stocks", "form"]));
}

#[test]
fn lists_older_than_a_day_are_due() {
    assert!(!Manager::needs_update("20240101", day(2024, 1, 2)));
    assert!(Manager::needs_update("20240101", day(2024, 1, 3)));
    assert!(Manager::needs_update("not a date", day(2024, 1, 3)));
    let m = sample();
    assert_eq!(m.update_plan(day(2024, 1, 3)), strings(&["daily"]));
    assert_eq!(m.update_plan(day(2024, 1, 4)), strings(&["daily", "stocks", "form"]));
}

#[test]
fn marking_a_list_updated_sets_its_status() {
    let mut m = sample();
    m.mark_updated("stocks", "20240301");
    assert_eq!(m.config.entries[1].status, "20240301");
    assert_eq!(m.config.entries[0].status, "20240101");
}

#[test]
fn folders_live_under_downloads() {
    assert_eq!(Manager::folder_dir("daily"), "downloads/daily");
    assert_eq!(Manager::folder_dir("/abs/dir"), "/abs/dir");
}

#[test]
fn a_job_fills_in_the_placeholders() {
    let m = sample();
    let today = day(2024, 6, 1);
    let c = m.job("downloads/daily", "http://x.com/d?date=@date", "", "20240105", today, &None);
    assert_eq!(c.url(), "http://x.com/d?date=1130105");
    assert_eq!(c.path(), "downloads/daily/x_d_20240105.txt");
    assert_eq!(c.post_data(), None);
    let p = m.job("downloads/form", "http://p.com/q@Post:a=@num", "6488", "", today, &None);
    assert_eq!(p.url(), "http://p.com/q");
    assert_eq!(p.post_data(), Some("a=6488".to_string()));
    assert_eq!(p.path(), "downloads/form/p_q_6488.txt");
}

#[test]
fn a_download_has_one_job_per_number_and_date() {
    let m = sample();
    let today = day(2024, 6, 1);
    let jobs = match m.download("http://y.com/s/@num", today, &lists(), &None) {
        Ok(j) => j,
        Err(_) => panic!("the list is known"),
    };
    assert_eq!(jobs.len(), 2);
    assert_eq!(jobs[0].len(), 1);
    assert_eq!(jobs[0][0].url(), "http://y.com/s/2330");
    assert_eq!(jobs[0][0].path(), "downloads/stocks/s_2330_2330.txt");
    assert_eq!(jobs[1][0].url(), "http://y.com/s/2317");
    assert!(matches!(m.download("http://unknown", today, &lists(), &None), Err(DownloadError::UnknownUrl)));
}

#[test]
fn a_saved_relay_reads_back() {
    let list = pairs(&[("URL", "http://a"), ("request", "x.y"), ("request", "z")]);
    let text = Manager::add_relay(&None, "r1", &list);
    let r = Config::relay(&Some(text.clone()), "r1");
    assert_eq!((r.url.as_str(), r.request.as_str(), r.date.as_str(), r.num.as_str()), ("http://a", "z", "", ""));
    let more = Manager::add_relay(&Some(text), "r2", &pairs(&[("num", "2330")]));
    assert_eq!(Config::relay(&Some(more.clone()), "r1").url, "http://a");
    assert_eq!(Config::relay(&Some(more), "r2").num, "2330");
}

#[test]
fn a_deleted_relay_is_gone() {
    let text = Manager::add_relay(&Some("not json".to_string()), "r1", &pairs(&[("URL", "http://a")]));
    let after = Manager::delete_relay(&Some(text), "r1").unwrap();
    assert_eq!(Config::relay(&Some(after), "r1").url, "");
    assert_eq!(Manager::delete_relay(&None, "r1"), None);
}

#[test]
fn pauses_last_half_a_second_to_five() {
    for _ in 0..50 {
        let p = Manager::pause_ms();
        assert!((500..5000).contains(&p));
    }
}

#[test]
fn a_relay_added_to_an_existing_object_reads_back() {
    let base = "{\"a\": {}, \"r0\": {\"URL\": \"http://old\"}}".to_string();
    let text = Manager::add_relay(&Some(base), "r1", &pairs(&[("URL", "http://a"), ("date", "20240101")]));
    let r = Config::relay(&Some(text.clone()), "r1");
    assert_eq!((r.url.as_str(), r.date.as_str()), ("http://a", "20240101"));
    assert_eq!(Config::relay(&Some(text.clone()), "r0").url, "http://old");
    let v: serde_json::Value = serde_json::from_str(&text).unwrap();
    assert!(v.get("a").is_some());
}

#[test]
fn a_relay_is_not_added_to_json_that_is_no_object() {
    let text = Manager::add_relay(&Some("[1, 2]".to_string()), "r1", &pairs(&[("URL", "http://a")]));
    assert_eq!(text, "[\n  1,\n  2\n]");
    assert_eq!(Config::relay(&Some(text), "r1").url, "");
}

#[test]
fn deleting_a_relay_keeps_the_others() {
    let base = "{\"r0\": {\"URL\": \"http://old\"}, \"r1\": {\"URL\": \"http://a\"}}".to_string();
    let after = Manager::delete_relay(&Some(base), "r1").unwrap();
    assert_eq!(Config::relay(&Some(after.clone()), "r1").url, "");
    assert_eq!(Config::relay(&Some(after), "r0").url, "http://old");
    assert_eq!(Manager::delete_relay(&Some("oops".to_string()), "r1"), Some("{}".to_string()));
}
