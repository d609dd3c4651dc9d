use stack_sync::envmap::EnvMap;
use stack_sync::overlay::parse_env_text;
use stack_sync::overlay::render_env_text;

fn got(e: &EnvMap, key: &str) -> Option<String> {
    e.get(key).map(|v| v.clone())
}

#[test]
fn parse_tolerates_comments_blanks_and_malformed_lines() {
    let text = "# comment\n\nFOO=bar\nmalformed-no-equals\n";
    let env = parse_env_text(text);
    assert_eq!(env.len(), 1);
    assert_eq!(got(&env, "FOO"), Some("bar".to_string()));
    assert_eq!(got(&env, "malformed-no-equals"), None);
}

#[test]
fn parse_empty_text_yields_no_variables() {
    let env = parse_env_text("");
    assert_eq!(env.len(), 0);
}

#[test]
fn parse_trims_names_and_values() {
    let env = parse_env_text("  KEY  =  spaced value \n\tTAB\t=\tv\n");
    assert_eq!(env.len(), 2);
    assert_eq!(got(&env, "KEY"), Some("spaced value".to_string()));
    assert_eq!(got(&env, "TAB"), Some("v".to_string()));
}

#[test]
fn parse_splits_on_first_equals_only() {
    let env = parse_env_text("URL=http://host/a=b\n");
    assert_eq!(got(&env, "URL"), Some("http://host/a=b".to_string()));
}

#[test]
fn parse_last_occurrence_wins() {
    let env = parse_env_text("A=1\nA=2\n");
    assert_eq!(env.len(), 1);
    assert_eq!(got(&env, "A"), Some("2".to_string()));
}

#[test]
fn parse_accepts_crlf_line_endings() {
    let env = parse_env_text("A=1\r\nB=2\r\n");
    assert_eq!(env.len(), 2);
    assert_eq!(got(&env, "A"), Some("1".to_string()));
    assert_eq!(got(&env, "B"), Some("2".to_string()));
}

#[test]
fn parse_ignores_comment_after_trim() {
    let env = parse_env_text("   # indented comment\nA=1\n");
    assert_eq!(env.len(), 1);
    assert_eq!(got(&env, "A"), Some("1".to_string()));
}

#[test]
fn parse_text_without_final_newline() {
    let env = parse_env_text("A=1\nB=2");
    assert_eq!(env.len(), 2);
    assert_eq!(got(&env, "B"), Some("2".to_string()));
}

#[test]
fn parse_keeps_empty_value() {
    let env = parse_env_text("EMPTY=\n");
    assert_eq!(env.len(), 1);
    assert_eq!(got(&env, "EMPTY"), Some(String::new()));
}

#[test]
fn render_writes_one_line_per_entry() {
    let mut env = EnvMap::new();
    env.insert("A".to_string(), "1".to_string());
    env.insert("B".to_string(), "two".to_string());
    assert_eq!(render_env_text(&env), "A=1\nB=two\n");
}

#[test]
fn render_then_parse_restores_the_mapping() {
    let mut env = EnvMap::new();
    env.insert("PORT".to_string(), "8080".to_string());
    env.insert("HOST".to_string(), "db".to_string());
    let reparsed = parse_env_text(&render_env_text(&env));
    assert_eq!(reparsed.len(), 2);
    assert_eq!(got(&reparsed, "PORT"), Some("8080".to_string()));
    assert_eq!(got(&reparsed, "HOST"), Some("db".to_string()));
}
