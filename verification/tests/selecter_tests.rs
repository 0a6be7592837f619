use chrono::Datelike;
use stockgo::config::{CodeLists, Config, ConfigEntry};
use stockgo::selecter::Selecter;

fn day(y: i32, m: u32, d: u32) -> i32 {
    chrono::NaiveDate::from_ymd_opt(y, m, d).unwrap().num_days_from_ce()
}

fn strings(items: &[&str]) -> Vec<String> {
    items.iter().map(|s| s.to_string()).collect()
}

fn config() -> Config {
    Config::new(vec![
        (
            "daily".to_string(),
            ConfigEntry {
                url: "http://x.com/d?date=@date".to_string(),
                folder: "daily".to_string(),
                label: "date:yyy%m%d:D,@date".to_string(),
                status: "20240101".to_string(),
            },
        ),
        (
            "stocks".to_string(),
            ConfigEntry {
                url: "http://y.com/s/@num".to_string(),
                folder: "stocks".to_string(),
                label: "stock:listed,@num".to_string(),
                status: "20240101".to_string(),
            },
        ),
    ])
}

fn relays() -> Option<String> {
    Some(r#"{"price": {"URL": "http://x.com/d?date=@date", "request": "code.close", "date": "", "num": ""}}"#.to_string())
}

fn no_lists() -> CodeLists {
    CodeLists { listed: Vec::new(), otc: Vec::new(), etf: Vec::new() }
}

#[test]
fn commands_start_from_the_relay() {
    let f = Selecter::read_command("price -date=20240101~20240103 -num=1", &relays());
    assert_eq!(f.url, "http://x.com/d?date=@date");
    assert_eq!(f.request, "code.close");
    assert_eq!(f.date, "20240101~20240103");
    assert_eq!(f.num, "1");
    assert_eq!(f.withdate, None);
    let g = Selecter::read_command("http://z -request=a -withdate=false", &relays());
    assert_eq!(g.url, "http://z");
    assert_eq!(g.request, "a");
    assert_eq!(g.withdate, Some("false".to_string()));
}

#[test]
fn a_selection_lays_out_its_columns() {
    let s = Selecter::new(&strings(&["price", "http://y.com/s/@num -request=a -num=2330"]), &relays(), &config(), &Vec::new());
    assert_eq!(s.urls, strings(&["http://x.com/d?date=@date", "http://y.com/s/@num"]));
    assert_eq!(s.req, vec![strings(&["code", "close"]), strings(&["a"])]);
    assert_eq!(s.dates, strings(&["", ""]));
    assert!(s.check_date);
    assert_eq!(s.data.len(), 5);
    assert!(s.with_date(0));
    assert_eq!(s.columns_of(0), 3);
    assert_eq!(s.columns_of(1), 2);
    assert_eq!(s.column_offset(1), 3);
    assert_eq!(s.column_offset(2), 5);
}

#[test]
fn withdate_false_turns_date_columns_off() {
    let s = Selecter::new(&strings(&["price -withdate=false"]), &relays(), &config(), &Vec::new());
    assert!(!s.check_date);
    assert_eq!(s.data.len(), 2);
}

#[test]
fn all_fields_come_from_the_index() {
    let idx = vec![("daily".to_string(), " open, close ,,vol\n".to_string())];
    let s = Selecter::new(&strings(&["price -request=ALL"]), &relays(), &config(), &idx);
    assert_eq!(s.req, vec![strings(&["open", "close", "vol"])]);
    let none = Selecter::new(&strings(&["price -request=ALL"]), &relays(), &config(), &Vec::new());
    assert_eq!(none.req, vec![strings(&["ALL"])]);
}

#[test]
fn source_files_follow_the_date_stream() {
    let s = Selecter::new(&strings(&["price -date=20240101~20240103"]), &relays(), &config(), &Vec::new());
    let files = s.source_files(0, &config(), &no_lists(), day(2024, 6, 1));
    assert_eq!(
        files,
        vec![
            ("downloads/daily/x_d_20240101.txt".to_string(), "20240101".to_string()),
            ("downloads/daily/x_d_20240102.txt".to_string(), "20240102".to_string()),
        ]
    );
}

#[test]
fn a_file_contributes_its_rows() {
    let parsed = Some(vec![strings(&["1", "2"]), strings(&["a"])]);
    assert_eq!(Selecter::file_column(&parsed, 0, "20240101", true), strings(&["20240101", "20240101"]));
    assert_eq!(Selecter::file_column(&parsed, 1, "20240101", true), strings(&["1", "2"]));
    assert_eq!(Selecter::file_column(&parsed, 2, "20240101", true), strings(&["a", "null"]));
    assert_eq!(Selecter::file_column(&parsed, 1, "d", false), strings(&["a", "null"]));
    assert!(Selecter::file_column(&None, 0, "d", true).is_empty());
}

#[test]
fn filled_data_exports_row_by_row() {
    let mut s = Selecter::new(&strings(&["price"]), &relays(), &config(), &Vec::new());
    let parsed = vec![Some(vec![strings(&["2330", "2317"]), strings(&["600", "100"])]), None, Some(vec![strings(&["1101"]), strings(&["40"])])];
    s.fill(0, &parsed, &strings(&["20240101", "20240102", "20240103"]));
    assert_eq!(s.data[0], strings(&["20240101", "20240101", "20240103"]));
    assert_eq!(s.data[1], strings(&["2330", "2317", "1101"]));
    assert_eq!(s.data[2], strings(&["600", "100", "40"]));
    assert!(s.data.iter().all(|c| c.len() == s.data[0].len()));
    let (header, rows) = s.export_table().unwrap();
    assert_eq!(header, strings(&["pathIn", "code", "close"]));
    assert_eq!(header.len(), s.data.len());
    assert_eq!(rows.len(), 3);
    assert_eq!(rows[2], strings(&["20240103", "1101", "40"]));
    assert_eq!(s.back_test(&vec![1, 2, 0, 9]), vec![(1, 2)]);
}

#[test]
fn shorter_columns_export_empty_cells() {
    let mut s = Selecter::new(&strings(&["price -withdate=false"]), &relays(), &config(), &Vec::new());
    s.data[0] = strings(&["a", "b"]);
    s.data[1] = strings(&["c"]);
    let (header, rows) = s.export_table().unwrap();
    assert_eq!(header, strings(&["code", "close"]));
    assert_eq!(rows, vec![strings(&["a", "c"]), strings(&["b", ""])]);
}

#[test]
fn nothing_to_export_without_columns() {
    let s = Selecter::new(&Vec::new(), &None, &config(), &Vec::new());
    assert!(s.export_table().is_none());
}

#[test]
fn exports_go_to_the_given_path() {
    assert_eq!(Selecter::export_path(""), "downloads/export.csv");
    assert_eq!(Selecter::export_path("out/x.csv"), "out/x.csv");
}

#[test]
fn selecting_fills_every_source() {
    let mut s = Selecter::new(&strings(&["price", "http://y.com/s/@num -request=a -num=2330"]), &relays(), &config(), &Vec::new());
    let parsed = vec![
        vec![Some(vec![strings(&["2330"]), strings(&["600"])])],
        vec![Some(vec![strings(&["x", "y"])]), None],
    ];
    let dates = vec![strings(&["20240101"]), strings(&["", ""])];
    s.select(&parsed, &dates);
    assert_eq!(s.data.len(), 5);
    assert_eq!(s.data[0], strings(&["20240101"]));
    assert_eq!(s.data[1], strings(&["2330"]));
    assert_eq!(s.data[2], strings(&["600"]));
    assert_eq!(s.data[3], strings(&["", ""]));
    assert_eq!(s.data[4], strings(&["x", "y"]));
}

#[test]
fn selecting_again_appends_and_skips_files_without_dates() {
    let mut s = Selecter::new(&strings(&["price", "http://y.com/s/@num -request=a -num=2330"]), &relays(), &config(), &Vec::new());
    let parsed = vec![
        vec![Some(vec![strings(&["2330"]), strings(&["600"])])],
        vec![Some(vec![strings(&["x", "y"])]), None],
    ];
    let dates = vec![strings(&["20240101"]), strings(&["", ""])];
    s.select(&parsed, &dates);
    let short_dates = vec![strings(&["20240102"])];
    s.select(&parsed, &short_dates);
    assert_eq!(s.data[0], strings(&["20240101", "20240102"]));
    assert_eq!(s.data[1], strings(&["2330", "2330"]));
    assert_eq!(s.data[2], strings(&["600", "600"]));
    assert_eq!(s.data[3], strings(&["", ""]));
    assert_eq!(s.data[4], strings(&["x", "y"]));
}
