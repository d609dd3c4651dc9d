use stack_sync::config::DesiredConfig;
use stack_sync::envmap::EnvMap;
use stack_sync::locator::RemoteStackRef;
use stack_sync::overlay::parse_env_text;
use stack_sync::reconcile::ReconcileAction;
use stack_sync::reconcile::ReconcileError;
use stack_sync::reconcile::ReconcileOutcome;
use stack_sync::reconcile::apply_outcome;
use stack_sync::reconcile::plan_action;
use stack_sync::reconcile::reconcile;

fn stack(id: &str, name: &str) -> RemoteStackRef {
    RemoteStackRef { id: id.to_string(), name: name.to_string() }
}

fn nginx_base() -> DesiredConfig {
    DesiredConfig {
        fields: vec![("image".to_string(), "nginx".to_string())],
        environment: None,
    }
}

#[test]
fn plan_creates_when_nothing_located() {
    let action = plan_action("web", None, nginx_base());
    match action {
        ReconcileAction::Create { name, config } => {
            assert_eq!(name, "web");
            assert_eq!(config, nginx_base());
        }
        ReconcileAction::Update { .. } => panic!("absent stack must yield a create"),
    }
}

#[test]
fn plan_updates_when_a_stack_was_located() {
    let action = plan_action("web", Some(stack("42", "Web")), nginx_base());
    match action {
        ReconcileAction::Update { id, config } => {
            assert_eq!(id, "42");
            assert_eq!(config, nginx_base());
        }
        ReconcileAction::Create { .. } => panic!("a located stack must yield an update"),
    }
}

#[test]
fn reconcile_fails_without_planning_on_list_failure() {
    let r = reconcile("web", nginx_base(), None, Err("connection refused".to_string()));
    assert_eq!(
        r,
        Err(ReconcileError::ListFailed { detail: "connection refused".to_string() })
    );
}

#[test]
fn reconcile_end_to_end_create_path() {
    let overlay = parse_env_text("PORT=8080\n");
    let stacks = vec![stack("7", "other")];
    let action = reconcile("web", nginx_base(), Some(overlay), Ok(stacks)).unwrap();
    match action {
        ReconcileAction::Create { name, config } => {
            assert_eq!(name, "web");
            assert_eq!(config.fields, vec![("image".to_string(), "nginx".to_string())]);
            let env = config.environment.expect("merged environment must be present");
            assert_eq!(env.len(), 1);
            assert_eq!(env.get("PORT").map(|v| v.clone()), Some("8080".to_string()));
        }
        ReconcileAction::Update { .. } => panic!("no stack named web: must create"),
    }
}

#[test]
fn reconcile_end_to_end_update_path() {
    let overlay = parse_env_text("PORT=8080\n");
    let stacks = vec![stack("7", "other"), stack("42", "Web")];
    let action = reconcile("web", nginx_base(), Some(overlay), Ok(stacks)).unwrap();
    match action {
        ReconcileAction::Update { id, config } => {
            assert_eq!(id, "42");
            assert_eq!(config.fields, vec![("image".to_string(), "nginx".to_string())]);
            let env = config.environment.expect("merged environment must be present");
            assert_eq!(env.get("PORT").map(|v| v.clone()), Some("8080".to_string()));
        }
        ReconcileAction::Create { .. } => panic!("stack Web exists: must update, not create"),
    }
}

#[test]
fn reconcile_merges_base_environment_with_overlay() {
    let base = DesiredConfig {
        fields: Vec::new(),
        environment: Some(parse_env_text("A=1\nB=2\n")),
    };
    let overlay = parse_env_text("B=9\nC=3\n");
    let action = reconcile("web", base, Some(overlay), Ok(Vec::new())).unwrap();
    let config = match action {
        ReconcileAction::Create { config, .. } => config,
        ReconcileAction::Update { .. } => panic!("empty remote list must yield a create"),
    };
    let env = config.environment.unwrap();
    assert_eq!(env.len(), 3);
    assert_eq!(env.get("A").map(|v| v.clone()), Some("1".to_string()));
    assert_eq!(env.get("B").map(|v| v.clone()), Some("9".to_string()));
    assert_eq!(env.get("C").map(|v| v.clone()), Some("3".to_string()));
}

#[test]
fn apply_outcome_reports_created() {
    let action = plan_action("web", None, nginx_base());
    let r = apply_outcome(&action, Ok("resp-1".to_string()));
    assert_eq!(r, Ok(ReconcileOutcome::Created { response: "resp-1".to_string() }));
}

#[test]
fn apply_outcome_reports_updated() {
    let action = plan_action("web", Some(stack("42", "web")), nginx_base());
    let r = apply_outcome(&action, Ok("resp-2".to_string()));
    assert_eq!(r, Ok(ReconcileOutcome::Updated { response: "resp-2".to_string() }));
}

#[test]
fn apply_outcome_reports_apply_failure() {
    let action = plan_action("web", None, nginx_base());
    let r = apply_outcome(&action, Err("server error".to_string()));
    assert_eq!(r, Err(ReconcileError::ApplyFailed { detail: "server error".to_string() }));
}
