use chrono::Datelike;
use stockgo::config::{CodeLists, Config, ConfigEntry, Step};

fn day(y: i32, m: u32, d: u32) -> i32 {
    chrono::NaiveDate::from_ymd_opt(y, m, d).unwrap().num_days_from_ce()
}

fn entry(url: &str, folder: &str, label: &str, status: &str) -> ConfigEntry {
    ConfigEntry { url: url.to_string(), folder: folder.to_string(), label: label.to_string(), status: status.to_string() }
}

fn strings(items: &[&str]) -> Vec<String> {
    items.iter().map(|s| s.to_string()).collect()
}

fn sample() -> Config {
    Config::new(vec![
        ("daily".to_string(), entry("http://x.com/d?date=@date", "daily", "date:yyy%m%d:D,@date", "20240101")),
        ("stocks".to_string(), entry("http://y.com/s/@num", "stocks", "stock:listed,@num", "20240102")),
    ])
}

#[test]
fn list_view_has_a_header_and_six_items_per_list() {
    let c = sample();
    let v = c.list_config();
    assert_eq!(v.len(), 7 + 6 * 2);
    assert_eq!(v[..7].to_vec(), strings(&["number", "title", "URL", "folder", "label", "status", "\n"]));
    assert_eq!(
        v[7..13].to_vec(),
        strings(&["0", "daily", "http://x.com/d?date=@date", "daily", "date:yyy%m%d:D,@date", "20240101\n"])
    );
    assert_eq!(v[13], "1");
    assert_eq!(v[14], "stocks");
}

#[test]
fn empty_config_lists_only_the_header() {
    let c = Config::new(Vec::new());
    assert_eq!(c.list_config().len(), 7);
}

#[test]
fn positions_titles_and_urls() {
    let c = sample();
    assert_eq!(c.position("stocks"), Some(1));
    assert_eq!(c.position("none"), None);
    assert!(c.has_title("daily"));
    assert!(!c.has_title("x"));
    assert_eq!(c.find_url("http://y.com/s/@num"), Some(1));
    assert_eq!(c.find_url("http://z"), None);
}

#[test]
fn add_and_remove_lists() {
    let mut c = sample();
    c.add_entry("third", entry("u", "third", "l", "s"));
    assert_eq!(c.titles, strings(&["daily", "stocks", "third"]));
    let t = c.remove_at(0);
    assert_eq!(t, "daily");
    assert_eq!(c.titles, strings(&["stocks", "third"]));
    assert_eq!(c.entries.len(), 2);
    assert_eq!(c.entries[0].url, "http://y.com/s/@num");
}

#[test]
fn status_is_set_by_title() {
    let mut c = sample();
    c.set_status("stocks", "20240301");
    assert_eq!(c.entries[1].status, "20240301");
    assert_eq!(c.entries[0].status, "20240101");
    c.set_status("missing", "x");
    assert_eq!(c.entries[0].status, "20240101");
}

#[test]
fn importing_twice_is_importing_once() {
    let mut once = sample();
    once.import_entry(entry("http://n", "news", "l", "s"));
    let mut twice = sample();
    twice.import_entry(entry("http://n", "news", "l", "s"));
    twice.import_entry(entry("http://n", "news", "l", "s"));
    assert_eq!(once.titles, twice.titles);
    assert_eq!(twice.titles, strings(&["daily", "stocks", "news"]));
    assert_eq!(twice.entries.len(), 3);
    let mut replaced = sample();
    replaced.import_entry(entry("http://new", "daily", "l2", "s2"));
    assert_eq!(replaced.titles, strings(&["daily", "stocks"]));
    assert_eq!(replaced.entries[0].url, "http://new");
}

#[test]
fn label_parts_drop_the_placeholder_piece() {
    assert_eq!(Config::label_parts("stock:listed,@num", "@num"), strings(&["stock", "listed"]));
    assert_eq!(Config::label_parts("date: yyy%m%d :D,@date", "@date"), strings(&["date", "yyy%m%d", "D"]));
}

#[test]
fn daily_series_has_one_date_per_day() {
    let s = Config::date_series(day(2024, 1, 30), day(2024, 2, 2), &Step::Day);
    assert_eq!(s, strings(&["20240130", "20240131", "20240201"]));
    assert!(Config::date_series(day(2024, 1, 30), day(2024, 1, 30), &Step::Day).is_empty());
}

#[test]
fn weekly_and_monthly_series() {
    let w = Config::date_series(day(2024, 1, 1), day(2024, 1, 20), &Step::Week);
    assert_eq!(w, strings(&["20240101", "20240108", "20240115"]));
    let m = Config::date_series(day(2024, 1, 31), day(2024, 5, 1), &Step::Month);
    assert_eq!(m, strings(&["20240131", "20240229", "20240329", "20240429"]));
}

#[test]
fn date_bounds_from_range_or_status() {
    let today = day(2024, 6, 1);
    assert_eq!(Config::date_bounds("20240101~20240105", "", "yyyy", today), (day(2024, 1, 1), day(2024, 1, 5)));
    assert_eq!(Config::date_bounds("", "20240101", "yyyyMMdd", today), (day(2024, 1, 1), today));
    assert_eq!(Config::date_bounds("", "01120101", "yyyMMdd", today), (day(2023, 1, 1), today));
    assert_eq!(Config::date_bounds("", "garbage", "yyyy", today), (today, today));
}

#[test]
fn stream_dates_of_a_list() {
    let c = sample();
    let today = day(2024, 6, 1);
    assert_eq!(
        c.stream_date("http://x.com/d?date=@date", "20240101~20240104", today),
        strings(&["20240101", "20240102", "20240103"])
    );
    assert_eq!(c.stream_date("http://y.com/s/@num", "", today), strings(&[""]));
    assert_eq!(c.stream_date("http://unknown/@date", "", today), strings(&[""]));
}

#[test]
fn origin_dates_use_the_era_year() {
    let c = sample();
    let today = day(2024, 6, 1);
    assert_eq!(c.to_origin("20240105", "http://x.com/d?date=@date", today), "1130105");
    assert_eq!(c.to_origin("", "http://x.com/d?date=@date", today), "");
    assert_eq!(c.to_origin("20240105", "http://nowhere", today), "20240105");
    assert_eq!(Config::without_year("yyy%m%d"), "%m%d");
    assert_eq!(Config::without_year("yyyy-yy"), "-");
}

#[test]
fn numbers_of_a_list() {
    let c = sample();
    let lists = CodeLists {
        listed: strings(&["2330\u{3000}TSMC", "abc", "2317\u{3000}Hon Hai"]),
        otc: strings(&["6488\u{3000}GlobalWafers"]),
        etf: strings(&["T00501\u{3000}fund", "0050"]),
    };
    assert_eq!(c.stream_num("http://y.com/s/@num", "", &lists), strings(&["2330", "2317"]));
    assert_eq!(c.stream_num("http://y.com/s/@num", "1101.1102", &lists), strings(&["1101", "1102"]));
    assert_eq!(c.stream_num("http://x.com/d?date=@date", "", &lists), strings(&[""]));
    assert_eq!(c.stock_num("OTC", &lists), strings(&["6488"]));
    assert_eq!(c.stock_num("上市", &lists), strings(&["2330", "2317"]));
    assert_eq!(c.stock_num("all", &lists), strings(&["2330", "2317", "6488"]));
    assert_eq!(c.etf_num(&lists), strings(&["T00501"]));
}

#[test]
fn relays_are_read_from_the_relay_file() {
    let text = Some(r#"{"r1": {"URL": "http://a", "request": "x.y", "date": "", "num": "2330"}}"#.to_string());
    let r = Config::relay(&text, "r1");
    assert_eq!((r.url.as_str(), r.request.as_str(), r.date.as_str(), r.num.as_str()), ("http://a", "x.y", "", "2330"));
    let missing = Config::relay(&text, "r2");
    assert_eq!((missing.url.as_str(), missing.request.as_str()), ("", ""));
    let none = Config::relay(&None, "r1");
    assert_eq!(none.url, "");
}
