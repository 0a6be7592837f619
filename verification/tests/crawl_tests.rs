use stockgo::crawl::Crawl;

const URL: &str = "https://www.twse.com.tw/exchangeReport/STOCK_DAY?response=json";

#[test]
fn host_and_tag_of_a_url() {
    assert_eq!(Crawl::host("https://www.twse.com.tw:443/a/b"), "www.twse.com.tw");
    assert_eq!(Crawl::host("example.org/x"), "example.org");
    let c = Crawl::new(URL, &None);
    assert_eq!(c.tag(), "www_twse_com_tw");
    assert_eq!(c.url(), URL);
}

#[test]
fn a_new_fetch_is_saved_by_its_name() {
    let c = Crawl::new(URL, &None);
    assert_eq!(c.path(), "downloads/exchangeReport_STOCK_DAY.txt");
    assert_eq!(c.codec(), "UTF-8");
    assert_eq!(c.post_data(), None);
}

#[test]
fn the_codec_comes_from_the_rules() {
    let rules = Some(r#"{"www_twse_com_tw": {"codec": "BIG5"}}"#.to_string());
    assert_eq!(Crawl::new(URL, &rules).codec(), "BIG5");
}

#[test]
fn post_and_path_can_be_set() {
    let mut c = Crawl::new(URL, &None);
    c.set_post("a=1");
    c.set_path("downloads/x/y.txt");
    assert_eq!(c.post_data(), Some("a=1".to_string()));
    assert_eq!(c.path(), "downloads/x/y.txt");
    assert_eq!(c.url(), URL);
}

#[test]
fn request_headers() {
    let c = Crawl::new(URL, &None);
    let h = c.headers("UA");
    let expect: Vec<(String, String)> = vec![
        ("Host", "www.twse.com.tw"),
        ("Accept", "*/*"),
        ("Origin", URL),
        ("Referer", URL),
        ("Connection", "keep-alive"),
        ("X-Requested-With", "XMLHttpRequest"),
        ("Accept-Language", "zh-TW,zh-Hant;q=0.9"),
        ("User-Agent", "UA"),
        ("Content-Type", "application/x-www-form-urlencoded; charset=UTF-8"),
    ]
    .into_iter()
    .map(|(k, v)| (k.to_string(), v.to_string()))
    .collect();
    assert_eq!(h, expect);
}

#[test]
fn user_agents_from_the_file_or_the_defaults() {
    let d = Crawl::user_agents(&None);
    assert_eq!(d.len(), 3);
    assert_eq!(d[0], "Opera/9.64 (Windows NT 6.0; U; pl) Presto/2.1.1");
    assert_eq!(Crawl::user_agents(&Some(" a \n\n b\r\n".to_string())), vec!["a".to_string(), "b".to_string()]);
    assert_eq!(Crawl::user_agents(&Some("\n  \n".to_string())).len(), 3);
    assert_eq!(Crawl::pick_agent(&vec!["only".to_string()]), "only");
    let two = vec!["x".to_string(), "y".to_string()];
    for _ in 0..20 {
        let a = Crawl::pick_agent(&two);
        assert!(a == "x" || a == "y");
    }
}

#[test]
fn bodies_are_decoded_by_codec() {
    let utf = Crawl::new(URL, &None);
    assert_eq!(utf.decode("中文".as_bytes()), "中文");
    assert_eq!(utf.decode(&[0x61, 0xff, 0x62]), "a\u{fffd}b");
    let rules = Some(r#"{"www_twse_com_tw": {"codec": "big5"}}"#.to_string());
    let big5 = Crawl::new(URL, &rules);
    assert_eq!(big5.decode(&[0xa4, 0xa4, 0xa4, 0xe5]), "中文");
}

#[test]
fn saved_text_carries_the_site_tag() {
    let c = Crawl::new(URL, &None);
    assert_eq!(c.finish("<tr><td>1</td></tr>"), "<tr><td>1</td></tr><tag>www_twse_com_tw</tag>");
    assert_eq!(c.finish(r#"{"a":"1"}"#), "{\n  \"a\": \"1\",\n  \"tag\": \"www_twse_com_tw\"\n}");
    assert_eq!(c.finish("[1,2]"), "[1,2]");
    assert_eq!(c.finish("a,b\n1,2"), "a,b\n1,2");
}
