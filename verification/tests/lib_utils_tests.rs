use stockgo::lib_utils::{HtmlCell, HtmlRow, LibUtils};

fn cell(name: &str, colspan: Option<&str>, rowspan: Option<&str>, text: Option<&str>) -> Option<HtmlCell> {
    Some(HtmlCell {
        name: name.to_string(),
        colspan: colspan.map(|s| s.to_string()),
        rowspan: rowspan.map(|s| s.to_string()),
        first_text: text.map(|s| s.to_string()),
    })
}

fn strings(items: &[&str]) -> Vec<String> {
    items.iter().map(|s| s.to_string()).collect()
}

#[test]
fn names_drop_extensions_placeholders_and_queries() {
    assert_eq!(
        LibUtils::url_to_name("https://www.twse.com.tw/exchangeReport/STOCK_DAY?response=json&date=@date"),
        "exchangeReport_STOCK_DAY"
    );
    assert_eq!(LibUtils::url_to_name("http://y.com/s/@num"), "s_");
    assert_eq!(LibUtils::url_to_name("plain"), "plain");
    assert_eq!(LibUtils::name_from_cleaned("a/b/c"), "b_c");
}

#[test]
fn json_and_html_are_recognised() {
    assert!(LibUtils::is_json("{\"a\": 1}"));
    assert!(LibUtils::is_json("[1, 2]"));
    assert!(!LibUtils::is_json("a,b\n1,2"));
    assert!(LibUtils::is_html("  <div>"));
    assert!(LibUtils::is_html("text <html> more"));
    assert!(LibUtils::is_html("x<tr>y"));
    assert!(!LibUtils::is_html("a,b\n1,2"));
}

#[test]
fn spans_and_cell_texts() {
    assert_eq!(LibUtils::span(&Some("3".to_string())), 3);
    assert_eq!(LibUtils::span(&Some("x".to_string())), 1);
    assert_eq!(LibUtils::span(&None), 1);
    assert_eq!(LibUtils::cell_text(&Some("  a<br>b<br/> ".to_string())), "ab");
    assert_eq!(LibUtils::cell_text(&None), "");
}

#[test]
fn tables_are_rebuilt_as_plain_rows() {
    let rows = vec![
        HtmlRow {
            has_table: false,
            children: vec![
                cell("th", None, None, Some(" Code ")),
                None,
                cell("td", Some("2"), Some("3"), Some("x")),
                cell("span", None, None, Some("ignored")),
            ],
        },
        HtmlRow { has_table: true, children: vec![cell("td", None, None, Some("nested"))] },
        HtmlRow { has_table: false, children: vec![cell("td", None, None, None)] },
    ];
    assert_eq!(
        LibUtils::rebuild_rows(&rows, "<tag>t</tag>"),
        "<html><tr><td>Code</td><td rowspan='3'>x</td><td rowspan='3'>x</td></tr><tr><td></td></tr></html><tag>t</tag>"
    );
    assert_eq!(LibUtils::rebuild_rows(&Vec::new(), ""), "<html></html>");
}

#[test]
fn rules_fall_back_to_the_built_in_ones() {
    assert_eq!(LibUtils::get_tag(&None, "site/head/HTML"), "tr:eq(0)");
    assert_eq!(LibUtils::get_tag(&None, "site/body/HTML"), "tr:gt(0)");
    assert_eq!(LibUtils::get_tag(&None, "site/head/JSON"), "fields");
    assert_eq!(LibUtils::get_tag(&None, "site/body/JSON"), "data");
    assert_eq!(LibUtils::get_tag(&None, "site/codec/UTF-8"), "UTF-8");
    assert_eq!(LibUtils::get_tag(&None, "site/codec"), "");
    assert_eq!(LibUtils::tag_fallback(&strings(&["a", "body", "XML"])), "");
}

#[test]
fn rules_come_from_the_rule_file() {
    let rules = Some(r#"{"site": {"head": {"HTML": "tr:eq(2)"}, "codec": "BIG5"}, "a/b": {"c": "slash"}}"#.to_string());
    assert_eq!(LibUtils::get_tag(&rules, "site/head/HTML"), "tr:eq(2)");
    assert_eq!(LibUtils::get_tag(&rules, "site/codec"), "BIG5");
    assert_eq!(LibUtils::get_tag(&rules, "site/body/HTML"), "tr:gt(0)");
    assert_eq!(LibUtils::get_tag(&Some("not json".to_string()), "site/head/JSON"), "fields");
}

#[test]
fn rule_paths_walk_object_keys_only() {
    let rules = Some(r#"{"site": {"head": ["tr:eq(5)"], "codec": {"0": "BIG5"}}}"#.to_string());
    assert_eq!(LibUtils::get_tag(&rules, "site/head/0"), "");
    assert_eq!(LibUtils::get_tag(&rules, "site/codec/0"), "BIG5");
}
