use stockgo::json::{is_object, remove_member, set_member};

fn pairs(items: &[(&str, &str)]) -> Vec<(String, String)> {
    items.iter().map(|(k, v)| (k.to_string(), v.to_string())).collect()
}

#[test]
fn objects_are_told_apart() {
    assert!(is_object("{}"));
    assert!(is_object("{\"a\": 1}"));
    assert!(!is_object("[1]"));
    assert!(!is_object("oops"));
}

#[test]
fn a_member_set_in_an_object_keeps_the_others() {
    let t = set_member("{\"b\": \"x\"}", "a", &pairs(&[("k", "1"), ("k", "2")]));
    assert_eq!(t, "{\n  \"a\": {\n    \"k\": \"2\"\n  },\n  \"b\": \"x\"\n}");
    let v: serde_json::Value = serde_json::from_str(&t).unwrap();
    assert_eq!(v.pointer("/a/k").and_then(|x| x.as_str()), Some("2"));
    assert_eq!(v.pointer("/b").and_then(|x| x.as_str()), Some("x"));
}

#[test]
fn a_member_set_in_no_json_starts_an_object() {
    assert_eq!(set_member("oops", "a", &pairs(&[("k", "1")])), "{\n  \"a\": {\n    \"k\": \"1\"\n  }\n}");
    assert_eq!(set_member("[1]", "a", &pairs(&[("k", "1")])), "[\n  1\n]");
}

#[test]
fn a_removed_member_is_gone() {
    assert_eq!(remove_member("{\"a\": 1, \"b\": 2}", "a"), "{\n  \"b\": 2\n}");
    assert_eq!(remove_member("oops", "a"), "{}");
    assert_eq!(remove_member("3", "a"), "3");
}
