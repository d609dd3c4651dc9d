use stack_sync::locator::RemoteStackRef;
use stack_sync::locator::find_stack_id_by_name;
use stack_sync::locator::locate_stack;

fn stack(id: &str, name: &str) -> RemoteStackRef {
    RemoteStackRef { id: id.to_string(), name: name.to_string() }
}

#[test]
fn locate_matches_name_case_insensitively() {
    let stacks = vec![stack("1", "Alpha"), stack("2", "beta")];
    let found = locate_stack("BETA", &stacks).expect("beta must be found");
    assert_eq!(found.id, "2");
    assert_eq!(found.name, "beta");
}

#[test]
fn locate_reports_absence() {
    let stacks = vec![stack("1", "Alpha"), stack("2", "beta")];
    assert_eq!(locate_stack("gamma", &stacks), None);
}

#[test]
fn locate_takes_first_match_in_list_order() {
    let stacks = vec![stack("1", "web"), stack("2", "WEB")];
    let found = locate_stack("Web", &stacks).unwrap();
    assert_eq!(found.id, "1");
}

#[test]
fn locate_on_empty_list() {
    let stacks: Vec<RemoteStackRef> = Vec::new();
    assert_eq!(locate_stack("anything", &stacks), None);
}

#[test]
fn find_stack_id_by_name_returns_id_of_match() {
    let stacks = vec![stack("1", "Alpha"), stack("2", "beta")];
    assert_eq!(find_stack_id_by_name("BETA", &stacks), Some("2".to_string()));
    assert_eq!(find_stack_id_by_name("alpha", &stacks), Some("1".to_string()));
    assert_eq!(find_stack_id_by_name("gamma", &stacks), None);
}

#[test]
fn locate_requires_equal_length_names() {
    let stacks = vec![stack("1", "webs")];
    assert_eq!(locate_stack("web", &stacks), None);
}
