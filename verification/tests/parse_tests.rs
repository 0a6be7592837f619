use stockgo::parse::{Format, Parse, ParseError, RowSelection};

fn strings(items: &[&str]) -> Vec<String> {
    items.iter().map(|s| s.to_string()).collect()
}

fn table() -> (Vec<String>, Vec<String>) {
    (
        strings(&["code", "name", "price"]),
        strings(&["2330", "TSMC", "600", "2317", "", "100", "1101", "Cement", "40"]),
    )
}

#[test]
fn formats_of_files() {
    assert!(matches!(Parse::format_of("<table>"), Format::Html));
    assert!(matches!(Parse::format_of("{\"a\": 1}"), Format::Json));
    assert!(matches!(Parse::format_of("a,b\n1,2\n"), Format::Csv));
}

#[test]
fn csv_tables() {
    match Parse::csv_table("a,b\n1,2\n3,4\n") {
        Ok((hd, bd)) => {
            assert_eq!(hd, strings(&["a", "b"]));
            assert_eq!(bd, strings(&["1", "2", "3", "4"]));
        }
        Err(_) => panic!("valid csv"),
    }
    match Parse::csv_table("") {
        Ok((hd, bd)) => assert!(hd.is_empty() && bd.is_empty()),
        Err(_) => panic!("empty csv"),
    }
    assert!(matches!(Parse::csv_table("a,b\n1\n"), Err(ParseError::Csv(_))));
}

#[test]
fn json_tables_follow_the_rules() {
    let file = r#"{"tag": "site", "fields": ["a", "b", 3], "data": [["1", "2", "x"], "skip", ["4", null]]}"#;
    let (hd, bd) = Parse::json_table(file, &None);
    assert_eq!(hd, strings(&["a", "b", ""]));
    assert_eq!(bd, strings(&["1", "2", "x", "4", ""]));
    let rules = Some(r#"{"site": {"head": {"JSON": "h"}, "body": {"JSON": "b"}}}"#.to_string());
    let other = r#"{"tag": "site", "h": ["x"], "b": [["9"]]}"#;
    let (hd2, bd2) = Parse::json_table(other, &rules);
    assert_eq!(hd2, strings(&["x"]));
    assert_eq!(bd2, strings(&["9"]));
}

#[test]
fn html_tables_are_trimmed() {
    let head = vec![strings(&[" a ", "b"]), strings(&["ignored"])];
    let body = vec![strings(&[" 1", "2 "]), strings(&["3"])];
    let (hd, bd) = Parse::html_table(&head, &body);
    assert_eq!(hd, strings(&["a", "b"]));
    assert_eq!(bd, strings(&["1", "2", "3"]));
}

#[test]
fn row_selectors() {
    match Parse::select_tr("tr:eq(1)", 3) {
        RowSelection::Rows(v) => assert_eq!(v, vec![1]),
        RowSelection::Css => panic!("an eq selector"),
    }
    match Parse::select_tr("tr:eq(5)", 3) {
        RowSelection::Rows(v) => assert!(v.is_empty()),
        RowSelection::Css => panic!("an eq selector"),
    }
    match Parse::select_tr("table tr:gt(0)", 4) {
        RowSelection::Rows(v) => assert_eq!(v, vec![1, 2, 3]),
        RowSelection::Css => panic!("a gt selector"),
    }
    assert!(matches!(Parse::select_tr("table.x tr", 4), RowSelection::Css));
}

#[test]
fn requests_split_into_formula_filter_and_field() {
    let (opt, tag, field) = Parse::split_request("num*2!price#^6#^1");
    assert_eq!(opt, "num*2");
    assert_eq!(tag, Some("^6|^1".to_string()));
    assert_eq!(field, "price");
    let (opt, tag, field) = Parse::split_request("name");
    assert_eq!((opt.as_str(), tag, field.as_str()), ("", None, "name"));
}

#[test]
fn data_reports_requested_columns() {
    let (hd, bd) = table();
    let p = match Parse::from_table(hd, bd, &strings(&["price", "name", "volume"])) {
        Ok(p) => p,
        Err(_) => panic!("valid requests"),
    };
    assert_eq!(p.req, vec![2, 1, usize::MAX]);
    assert!(!p.check_tag && !p.check_opt);
    let d = p.data();
    assert_eq!(d.len(), 3);
    assert_eq!(d[0], strings(&["600", "100", "40"]));
    assert_eq!(d[1], strings(&["TSMC", "null", "Cement"]));
    assert_eq!(d[2], strings(&["null", "null", "null"]));
}

#[test]
fn filters_pick_rows_and_columns_stay_aligned() {
    let (hd, bd) = table();
    let p = match Parse::from_table(hd, bd, &strings(&["code#^23", "price"])) {
        Ok(p) => p,
        Err(_) => panic!("valid requests"),
    };
    assert!(p.check_tag);
    let d = p.data();
    assert_eq!(d[0], strings(&["2330", "2317"]));
    assert_eq!(d[1], strings(&["600", "100"]));
}

#[test]
fn an_invalid_filter_is_an_error() {
    let (hd, bd) = table();
    match Parse::from_table(hd, bd, &strings(&["code#(", "price"])) {
        Err(ParseError::Pattern(p)) => assert_eq!(p, "("),
        _ => panic!("the filter is no regular expression"),
    }
}

#[test]
fn no_header_no_rows() {
    let p = match Parse::from_table(Vec::new(), strings(&["1"]), &strings(&["a"])) {
        Ok(p) => p,
        Err(_) => panic!("valid requests"),
    };
    let d = p.data();
    assert_eq!(d.len(), 1);
    assert!(d[0].is_empty());
}

#[test]
fn formulas_apply_to_non_empty_columns() {
    let (hd, bd) = table();
    let p = match Parse::from_table(hd, bd, &strings(&["num*2!price", "name", "x!volume"])) {
        Ok(p) => p,
        Err(_) => panic!("valid requests"),
    };
    assert!(p.check_opt);
    assert_eq!(p.opt, strings(&["num*2", "", "x"]));
    let d = p.data();
    assert_eq!(p.formula_columns(&d), vec![0, 2]);
    let empty: Vec<Vec<String>> = vec![Vec::new(), Vec::new(), Vec::new()];
    assert!(p.formula_columns(&empty).is_empty());
}

#[test]
fn html_files_are_cleaned_before_reading() {
    let file = "<table><tr><th>a</th><th colspan='2'>b</th></tr><tr><td>1</td><td>2</td><td> 3 </td></tr></table><tag>site</tag>";
    assert_eq!(
        stockgo::lib_utils::LibUtils::clean_html(file),
        "<html><tr><td>a</td><td>b</td><td>b</td></tr><tr><td>1</td><td>2</td><td>3</td></tr></html><tag>site</tag>"
    );
    // The cleaned rows stand outside any table, where the HTML parser drops them.
    let (hd, bd) = Parse::html_file(file, &None);
    assert!(hd.is_empty() && bd.is_empty());
}

#[test]
fn files_are_read_by_their_format() {
    match Parse::table_of("{\"fields\": [\"a\"], \"data\": [[\"1\"], [\"2\"]]}", &None) {
        Ok((hd, bd)) => {
            assert_eq!(hd, strings(&["a"]));
            assert_eq!(bd, strings(&["1", "2"]));
        }
        Err(_) => panic!("json"),
    }
    match Parse::table_of("x,y\n1,2\n", &None) {
        Ok((hd, bd)) => {
            assert_eq!(hd, strings(&["x", "y"]));
            assert_eq!(bd, strings(&["1", "2"]));
        }
        Err(_) => panic!("csv"),
    }
    assert!(matches!(Parse::table_of("x,y\n1\n", &None), Err(ParseError::Csv(_))));
}

#[test]
fn loaded_files_report_requested_columns() {
    let p = match Parse::new("code,price\n2330,600\n2317,100\n", &None, &strings(&["price", "code#^23"])) {
        Ok(p) => p,
        Err(_) => panic!("valid file and requests"),
    };
    assert_eq!(p.data(), vec![strings(&["600", "100"]), strings(&["2330", "2317"])]);
    assert!(matches!(Parse::new("a\n1\n", &None, &strings(&["a#["])), Err(ParseError::Pattern(_))));
    assert!(matches!(Parse::new("a,b\n1\n", &None, &strings(&["a"])), Err(ParseError::Csv(_))));
}

#[test]
fn html_rows_that_survive_cleaning_are_read() {
    let file = "<table><tr><td>&lt;table&gt;&lt;tr&gt;&lt;td&gt;X</td></tr></table><tag>site</tag>";
    let (hd, bd) = Parse::html_file(file, &None);
    assert_eq!(hd, strings(&["X"]));
    assert!(bd.is_empty());
    let rules = Some(r#"{"site": {"head": {"HTML": "table"}, "body": {"HTML": "td"}}}"#.to_string());
    let (hd2, bd2) = Parse::html_file(file, &rules);
    assert_eq!(hd2, strings(&["X"]));
    assert!(bd2.is_empty());
    let rules_all = Some(r#"{"site": {"body": {"HTML": "table"}}}"#.to_string());
    let (hd3, bd3) = Parse::html_file(file, &rules_all);
    assert_eq!(hd3, strings(&["X"]));
    assert_eq!(bd3, strings(&["X"]));
}
