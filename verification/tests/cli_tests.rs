use stockgo::cli::{
    is_exit, manager_command, menu_choice, preview, query, rows_json, select_command, trust_command, ManagerCmd, Menu,
    SelectCmd, TrustCmd,
};

fn pairs(items: &[(&str, &str)]) -> Vec<(String, String)> {
    items.iter().map(|(k, v)| (k.to_string(), v.to_string())).collect()
}

#[test]
fn menu_reads_the_first_dash_word() {
    assert!(matches!(menu_choice(""), Menu::Skip));
    assert!(matches!(menu_choice("-M"), Menu::Manage));
    assert!(matches!(menu_choice("go -S now"), Menu::Select));
    assert!(matches!(menu_choice("-IO_OI"), Menu::Trust));
    assert!(matches!(menu_choice("-IPFS"), Menu::Trust));
    assert!(matches!(menu_choice("-X"), Menu::Unknown));
    assert!(matches!(menu_choice("hello"), Menu::Invalid));
}

#[test]
fn exit_is_read_in_any_case() {
    assert!(is_exit("exit"));
    assert!(is_exit("EXIT now"));
    assert!(is_exit("please Exit"));
    assert!(!is_exit("quit"));
    assert!(matches!(menu_choice("-M exit"), Menu::Exit));
}

#[test]
fn manager_add_takes_four_fields() {
    match manager_command("add T, http://x/@num, stock:listed, 20240101") {
        ManagerCmd::Add(v) => assert_eq!(
            v,
            pairs(&[("title", "T"), ("URL", "http://x/@num"), ("label", "stock:listed"), ("status", "20240101")])
        ),
        _ => panic!("expected an add"),
    }
    match manager_command("-A a,b,c,d,e") {
        ManagerCmd::Add(v) => assert_eq!(v, pairs(&[("title", "a"), ("URL", "b"), ("label", "c"), ("status", "d")])),
        _ => panic!("expected an add"),
    }
    assert!(matches!(manager_command("add a,b"), ManagerCmd::Usage));
}

#[test]
fn manager_update_delete_and_help() {
    assert!(matches!(manager_command("update"), ManagerCmd::Update));
    assert!(matches!(manager_command("-U"), ManagerCmd::Update));
    assert!(matches!(manager_command("delete 3"), ManagerCmd::Delete(3)));
    assert!(matches!(manager_command("-D 12"), ManagerCmd::Delete(12)));
    assert!(matches!(manager_command("delete x"), ManagerCmd::InvalidIndex));
    assert!(matches!(manager_command("--help"), ManagerCmd::Help));
    assert!(matches!(manager_command("frobnicate"), ManagerCmd::Unknown));
}

#[test]
fn manager_relays_take_dash_settings() {
    match manager_command("addRelay r1 -URL=http://a -request=x.y -bad") {
        ManagerCmd::AddRelay(name, v) => {
            assert_eq!(name, "r1");
            assert_eq!(v, pairs(&[("URL", "http://a"), ("request", "x.y")]));
        }
        _ => panic!("expected a relay"),
    }
    match manager_command("delRelay r1") {
        ManagerCmd::DelRelay(name) => assert_eq!(name, "r1"),
        _ => panic!("expected a relay removal"),
    }
}

#[test]
fn select_commands() {
    match select_command("select a -request=x, b") {
        SelectCmd::Select(v) => assert_eq!(v, vec!["a -request=x".to_string(), "b".to_string()]),
        _ => panic!("expected a selection"),
    }
    match select_command("export out.csv") {
        SelectCmd::Export(p) => assert_eq!(p, "out.csv"),
        _ => panic!("expected an export"),
    }
    match select_command("-T default") {
        SelectCmd::Test(s) => assert_eq!(s, "default"),
        _ => panic!("expected a test"),
    }
    assert!(matches!(select_command("view"), SelectCmd::View));
    assert!(matches!(select_command("-detail"), SelectCmd::View));
    assert!(matches!(select_command("--help"), SelectCmd::Help));
    assert!(matches!(select_command("zzz"), SelectCmd::Unknown));
}

#[test]
fn trust_commands() {
    match trust_command("import abc") {
        TrustCmd::Import(h) => assert_eq!(h, "abc"),
        _ => panic!("expected an import"),
    }
    assert!(matches!(trust_command("export 2"), TrustCmd::Share(2)));
    assert!(matches!(trust_command("-O x"), TrustCmd::InvalidIndex));
    match trust_command("post hello --private") {
        TrustCmd::Post(b, p) => {
            assert_eq!(b, "hello");
            assert!(p);
        }
        _ => panic!("expected a post"),
    }
    match trust_command("-P hi there") {
        TrustCmd::Post(b, p) => {
            assert_eq!(b, "hi there");
            assert!(!p);
        }
        _ => panic!("expected a post"),
    }
    match trust_command("delete ab12") {
        TrustCmd::Delete(h) => assert_eq!(h, "ab12"),
        _ => panic!("expected a deletion"),
    }
    assert!(matches!(trust_command("profile"), TrustCmd::Profile));
    assert!(matches!(trust_command("--help"), TrustCmd::Help));
    assert!(matches!(trust_command("nope"), TrustCmd::Unknown));
}

#[test]
fn query_drops_the_q_prefix() {
    assert_eq!(query("  q=2330 \n"), "2330");
    assert_eq!(query("q=q=x"), "x");
    assert_eq!(query("abc"), "abc");
    assert_eq!(query("q"), "q");
}

#[test]
fn preview_shows_ten_items_at_most() {
    let long: Vec<String> = (0..12).map(|i| i.to_string()).collect();
    assert_eq!(preview(&long), long[..10].to_vec());
    let short: Vec<String> = vec!["a".to_string(), "b".to_string()];
    assert_eq!(preview(&short), short);
}

fn grid(rows: &[&[&str]]) -> Vec<Vec<String>> {
    rows.iter().map(|r| r.iter().map(|s| s.to_string()).collect()).collect()
}

#[test]
fn search_results_as_json() {
    assert_eq!(rows_json(&Vec::new()), "[]");
    assert_eq!(rows_json(&grid(&[&["code", "name"]])), "[]");
    let data = grid(&[&["name", "code"], &["TSMC", "2330", "extra"], &["UMC"]]);
    assert_eq!(rows_json(&data), r#"[{"code":"2330","name":"TSMC"},{"name":"UMC"}]"#);
}
