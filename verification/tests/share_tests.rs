use stockgo::config::{Config, ConfigEntry};
use stockgo::share::{share_payload, shared_entry, shared_files, ShareError};

fn entry() -> ConfigEntry {
    ConfigEntry {
        url: "http://x/@date".to_string(),
        folder: "daily".to_string(),
        label: "date".to_string(),
        status: "20240101".to_string(),
    }
}

fn files(items: &[(&str, &str)]) -> Vec<(String, String)> {
    items.iter().map(|(k, v)| (k.to_string(), v.to_string())).collect()
}

#[test]
fn a_shared_list_payload_is_compact_json() {
    let p = share_payload(&entry(), &files(&[("downloads/daily/a.txt", "h1")]));
    assert_eq!(
        p,
        r#"{"config":{"URL":"http://x/@date","folder":"daily","status":"20240101","tag":"date"},"files":{"downloads/daily/a.txt":"h1"}}"#
    );
}

#[test]
fn a_shared_list_reads_back() {
    let p = share_payload(&entry(), &files(&[("b", "h2"), ("a", "h1"), ("b", "h3")]));
    let e = match shared_entry(p.as_bytes()) {
        Ok(e) => e,
        Err(_) => panic!("the entry reads back"),
    };
    assert_eq!((e.url.as_str(), e.folder.as_str(), e.label.as_str(), e.status.as_str()), ("http://x/@date", "daily", "date", "20240101"));
    let f = match shared_files(p.as_bytes()) {
        Ok(f) => f,
        Err(_) => panic!("the files read back"),
    };
    assert_eq!(f, files(&[("a", "h1"), ("b", "h3")]));
}

#[test]
fn broken_payloads_say_why() {
    assert!(matches!(shared_entry(b"oops"), Err(ShareError::Payload)));
    assert!(matches!(shared_entry(&[0xff, 0xfe]), Err(ShareError::Payload)));
    assert!(matches!(shared_entry(br#"{"files":{}}"#), Err(ShareError::NoConfig)));
    assert!(matches!(shared_entry(br#"{"config":{"URL":"u","folder":"f","tag":"t"}}"#), Err(ShareError::BadConfig)));
    assert!(matches!(shared_entry(br#"{"config":{"URL":"u","folder":"f","tag":"t","status":1}}"#), Err(ShareError::BadConfig)));
    assert!(matches!(shared_entry(br#"{"config":[1]}"#), Err(ShareError::BadConfig)));
    assert!(matches!(shared_files(br#"{"config":{}}"#), Err(ShareError::NoFiles)));
    assert_eq!(shared_files(br#"{"files":[1]}"#).ok(), Some(Vec::new()));
    assert_eq!(shared_files(br#"{"files":{"p":1}}"#).ok(), Some(files(&[("p", "")])));
}

#[test]
fn a_shared_list_taken_in_is_listed_under_its_folder() {
    let mut c = Config::new(vec![("other".to_string(), ConfigEntry {
        url: "http://o".to_string(),
        folder: "other".to_string(),
        label: "".to_string(),
        status: "".to_string(),
    })]);
    let p = share_payload(&entry(), &Vec::new());
    let e = match shared_entry(p.as_bytes()) {
        Ok(e) => e,
        Err(_) => panic!("the entry reads back"),
    };
    c.import_entry(e);
    assert_eq!(c.titles, vec!["other".to_string(), "daily".to_string()]);
    assert_eq!(c.entries[1].url, "http://x/@date");
    assert_eq!(c.entries[0].url, "http://o");
    let again = match shared_entry(p.as_bytes()) {
        Ok(e) => e,
        Err(_) => panic!("the entry reads back"),
    };
    c.import_entry(again);
    assert_eq!(c.titles.len(), 2);
}
