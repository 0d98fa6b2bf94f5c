use orchix::auth::is_authorized;
use orchix::config::SecurityConfig;

fn keys(list: &[&str]) -> SecurityConfig {
    SecurityConfig { api_keys: list.iter().map(|k| k.to_string()).collect() }
}

#[test]
fn no_configured_key_lets_everything_pass() {
    let open = keys(&[]);
    assert!(is_authorized(&open, None));
    assert!(is_authorized(&open, Some("Bearer whatever")));
    assert!(is_authorized(&open, Some("garbage")));
}

#[test]
fn bearer_with_configured_key_passes() {
    let security = keys(&["k1", "k2"]);
    assert!(is_authorized(&security, Some("Bearer k1")));
    assert!(is_authorized(&security, Some("Bearer k2")));
}

#[test]
fn wrong_or_missing_credentials_are_rejected() {
    let security = keys(&["k1"]);
    assert!(!is_authorized(&security, None));
    assert!(!is_authorized(&security, Some("Bearer k3")));
    assert!(!is_authorized(&security, Some("Bearer k1 ")));
    assert!(!is_authorized(&security, Some("Bearer ")));
    assert!(!is_authorized(&security, Some("bearer k1")));
    assert!(!is_authorized(&security, Some("k1")));
    assert!(!is_authorized(&security, Some("Basic k1")));
}
