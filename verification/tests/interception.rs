use orchix::interception::{InterceptionConfig, Interceptor};
use orchix::json::Json;

fn object(members: Vec<(&str, Json)>) -> Json {
    Json::Object(members.into_iter().map(|(k, v)| (k.to_string(), v)).collect())
}

fn text(s: &str) -> Json {
    Json::Text(s.to_string())
}

fn policy(names: &[&str]) -> Interceptor {
    Interceptor::new(InterceptionConfig {
        forbidden_tools: names.iter().map(|n| n.to_string()).collect(),
    })
}

fn tool_calls(names: &[&str]) -> Json {
    object(vec![(
        "tool_calls",
        Json::Array(
            names
                .iter()
                .map(|n| object(vec![("function", object(vec![("name", text(n))]))]))
                .collect(),
        ),
    )])
}

#[test]
fn forbidden_tool_call_is_a_violation() {
    let interceptor = policy(&["rm_rf"]);
    let result = interceptor.validate_tools(&tool_calls(&["rm_rf"]));
    assert_eq!(
        result,
        Err("Tool 'rm_rf' is blocked by Orchix security policy".to_string())
    );
}

#[test]
fn allowed_tool_call_passes() {
    let interceptor = policy(&["rm_rf"]);
    assert_eq!(interceptor.validate_tools(&tool_calls(&["get_weather"])), Ok(()));
}

#[test]
fn first_forbidden_tool_call_is_the_one_named() {
    let interceptor = policy(&["drop_db", "rm_rf"]);
    let result = interceptor.validate_tools(&tool_calls(&["ls", "rm_rf", "drop_db"]));
    assert_eq!(
        result,
        Err("Tool 'rm_rf' is blocked by Orchix security policy".to_string())
    );
}

#[test]
fn forbidden_legacy_function_call_is_a_violation() {
    let interceptor = policy(&["rm_rf"]);
    let body = object(vec![("function_call", object(vec![("name", text("rm_rf"))]))]);
    assert_eq!(
        interceptor.validate_tools(&body),
        Err("Function 'rm_rf' is blocked by Orchix security policy".to_string())
    );
    let body = object(vec![("function_call", object(vec![("name", text("ls"))]))]);
    assert_eq!(interceptor.validate_tools(&body), Ok(()));
}

#[test]
fn tool_call_is_reported_before_legacy_function_call() {
    let interceptor = policy(&["a", "b"]);
    let body = object(vec![
        ("function_call", object(vec![("name", text("a"))])),
        (
            "tool_calls",
            Json::Array(vec![object(vec![("function", object(vec![("name", text("b"))]))])]),
        ),
    ]);
    assert_eq!(
        interceptor.validate_tools(&body),
        Err("Tool 'b' is blocked by Orchix security policy".to_string())
    );
}

#[test]
fn absent_or_mistyped_structure_passes() {
    let interceptor = policy(&["rm_rf"]);
    assert_eq!(interceptor.validate_tools(&Json::Null), Ok(()));
    assert_eq!(interceptor.validate_tools(&text("rm_rf")), Ok(()));
    assert_eq!(interceptor.validate_tools(&Json::Array(vec![text("rm_rf")])), Ok(()));
    assert_eq!(interceptor.validate_tools(&object(vec![("tool_calls", text("rm_rf"))])), Ok(()));
    assert_eq!(
        interceptor.validate_tools(&object(vec![("tool_calls", Json::Array(vec![text("rm_rf")]))])),
        Ok(())
    );
    let numeric_name = object(vec![(
        "tool_calls",
        Json::Array(vec![object(vec![(
            "function",
            object(vec![("name", Json::Number("7".to_string()))]),
        )])]),
    )]);
    assert_eq!(interceptor.validate_tools(&numeric_name), Ok(()));
    assert_eq!(
        interceptor.validate_tools(&object(vec![("function_call", text("rm_rf"))])),
        Ok(())
    );
}

#[test]
fn empty_deny_list_blocks_nothing() {
    let interceptor = policy(&[]);
    assert_eq!(interceptor.validate_tools(&tool_calls(&["rm_rf"])), Ok(()));
    assert!(!interceptor.is_forbidden("rm_rf"));
}

#[test]
fn is_forbidden_matches_whole_names_only() {
    let interceptor = policy(&["rm_rf", "exec"]);
    assert!(interceptor.is_forbidden("rm_rf"));
    assert!(interceptor.is_forbidden("exec"));
    assert!(!interceptor.is_forbidden("rm"));
    assert!(!interceptor.is_forbidden("rm_rf2"));
    assert!(!interceptor.is_forbidden(""));
}

#[test]
fn json_accessors_are_total() {
    let value = object(vec![("a", text("x")), ("b", Json::Array(vec![Json::Bool(true)]))]);
    assert_eq!(value.get("a").and_then(|v| v.as_str()), Some("x"));
    assert_eq!(value.get("b").and_then(|v| v.as_array()).map(|v| v.len()), Some(1));
    assert!(value.get("c").is_none());
    assert!(value.as_str().is_none());
    assert!(value.as_array().is_none());
    assert!(Json::Null.get("a").is_none());
    assert!(text("a").get("a").is_none());
}
