use orchix::routing::{RouteRule, Router};

fn rule(path: &str, model: &str, url: &str) -> RouteRule {
    RouteRule {
        path: path.to_string(),
        target_model: model.to_string(),
        target_url: url.to_string(),
    }
}

#[test]
fn resolve_takes_first_match_not_longest() {
    let router = Router::new(vec![
        rule("/a", "model-a", "http://a"),
        rule("/ab", "model-ab", "http://ab"),
    ]);
    let found = router.resolve("/abc").expect("a rule applies");
    assert_eq!(found.path, "/a");
    assert_eq!(found.target_model, "model-a");
    assert_eq!(found.target_url, "http://a");
}

#[test]
fn resolve_reaches_later_rule_when_earlier_do_not_apply() {
    let router = Router::new(vec![
        rule("/v1/chat", "chat", "http://chat"),
        rule("/v1", "general", "http://general"),
    ]);
    assert_eq!(router.resolve("/v1/chat/completions").unwrap().target_model, "chat");
    assert_eq!(router.resolve("/v1/embeddings").unwrap().target_model, "general");
}

#[test]
fn resolve_without_match_is_none() {
    let router = Router::new(vec![rule("/v1", "m", "u")]);
    assert!(router.resolve("/v2/x").is_none());
    assert!(router.resolve("").is_none());
    assert!(router.resolve("/v").is_none());
}

#[test]
fn resolve_on_empty_table_is_none() {
    let router = Router::new(Vec::new());
    assert!(router.resolve("/anything").is_none());
}

#[test]
fn empty_prefix_applies_to_every_path() {
    let router = Router::new(vec![rule("", "all", "http://all"), rule("/a", "a", "http://a")]);
    assert_eq!(router.resolve("/a").unwrap().target_model, "all");
    assert_eq!(router.resolve("").unwrap().target_model, "all");
}

#[test]
fn prefix_is_compared_by_characters() {
    let router = Router::new(vec![rule("/é", "accent", "http://e")]);
    assert!(router.resolve("/école").is_some());
    assert!(router.resolve("/e").is_none());
}
