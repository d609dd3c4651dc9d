use stack_sync::envmap::EnvMap;
use stack_sync::text::eq_ignore_ascii_case;
use stack_sync::text::find_char;
use stack_sync::text::trim_str;

#[test]
fn envmap_insert_and_get() {
    let mut env = EnvMap::new();
    env.insert("A".to_string(), "1".to_string());
    assert_eq!(env.len(), 1);
    assert_eq!(env.get("A").map(|v| v.clone()), Some("1".to_string()));
    assert_eq!(env.get("B"), None);
}

#[test]
fn envmap_insert_replaces_existing_binding() {
    let mut env = EnvMap::new();
    env.insert("A".to_string(), "1".to_string());
    env.insert("A".to_string(), "2".to_string());
    assert_eq!(env.len(), 1);
    assert_eq!(env.get("A").map(|v| v.clone()), Some("2".to_string()));
}

#[test]
fn envmap_keys_are_case_sensitive() {
    let mut env = EnvMap::new();
    env.insert("path".to_string(), "lower".to_string());
    env.insert("PATH".to_string(), "upper".to_string());
    assert_eq!(env.len(), 2);
    assert_eq!(env.get("path").map(|v| v.clone()), Some("lower".to_string()));
    assert_eq!(env.get("PATH").map(|v| v.clone()), Some("upper".to_string()));
}

#[test]
fn ascii_case_insensitive_equality() {
    assert!(eq_ignore_ascii_case("Web", "wEB"));
    assert!(eq_ignore_ascii_case("", ""));
    assert!(!eq_ignore_ascii_case("web", "webs"));
    assert!(!eq_ignore_ascii_case("web", "wee"));
}

#[test]
fn trim_removes_surrounding_whitespace_only() {
    assert_eq!(trim_str("  a b \t"), "a b");
    assert_eq!(trim_str("\r\n"), "");
    assert_eq!(trim_str("x"), "x");
}

#[test]
fn find_char_reports_first_occurrence() {
    assert_eq!(find_char("a=b=c", '='), Some(1));
    assert_eq!(find_char("abc", '='), None);
}
