use cls::api::api_base_url;
use cls::api::post_url;
use cls::parse_ffi_bool;
use cls::set_project_key;
use cls::set_user_id;
use cls::settings::Settings;

#[test]
fn env_overrides_everything_for_the_project_key() {
    let mut settings = Settings::new();
    settings.set_project_key("in-memory");
    let env = "from-env".to_string();
    assert_eq!(settings.get_project_key(Some(&env)), "from-env");
    assert_eq!(settings.get_project_key(None), "in-memory");
    let empty = "".to_string();
    assert_eq!(settings.get_project_key(Some(&empty)), "in-memory");
}

#[test]
fn debug_flag_parses_environment_text() {
    let settings = Settings::new();
    assert!(!settings.get_debug(None));
    assert!(settings.get_debug(Some(&"1".to_string())));
    assert!(settings.get_debug(Some(&"anything".to_string())));
    assert!(!settings.get_debug(Some(&"false".to_string())));
    assert!(!settings.get_debug(Some(&"0".to_string())));
    assert!(!settings.get_debug(Some(&"".to_string())));
}

#[test]
fn user_id_precedence_and_fresh_generation() {
    let mut settings = Settings::new();
    let stored = "stored-id".to_string();
    assert_eq!(
        settings.get_user_id(Some(&"env-id".to_string()), Some(&stored)),
        "env-id"
    );
    settings.set_user_id("explicit-id");
    assert_eq!(settings.get_user_id(None, Some(&stored)), "explicit-id");
    settings.set_user_id("");
    assert_eq!(settings.get_user_id(None, Some(&stored)), "stored-id");
    let fresh = settings.get_user_id(None, None);
    assert_eq!(fresh.len(), 36);
    let again = settings.get_user_id(None, None);
    assert_ne!(fresh, again);
}

#[test]
fn invocation_id_precedence() {
    let mut settings = Settings::new();
    assert_eq!(
        settings.get_invocation_id(Some(&"env-invoc".to_string())),
        "env-invoc"
    );
    settings.set_invocation_id("explicit");
    assert_eq!(settings.get_invocation_id(None), "explicit");
    settings.set_invocation_id("");
    assert_eq!(settings.get_invocation_id(None).len(), 36);
}

#[test]
fn is_ci_is_host_authoritative() {
    let mut settings = Settings::new();
    assert!(!settings.get_is_ci(false));
    assert!(settings.get_is_ci(true));
    settings.set_is_ci(false);
    assert!(!settings.get_is_ci(true));
    settings.set_is_ci(true);
    assert!(settings.get_is_ci(false));
}

#[test]
fn base_url_normalization() {
    assert_eq!(api_base_url(None), "https://api.cls.dev/");
    assert_eq!(
        api_base_url(Some(&"http://localhost:9000".to_string())),
        "http://localhost:9000/"
    );
    assert_eq!(
        api_base_url(Some(&"http://localhost:9000/".to_string())),
        "http://localhost:9000/"
    );
}

#[test]
fn post_url_joins_without_doubling_slashes() {
    assert_eq!(post_url("http://h/", "events/"), "http://h/events/");
    assert_eq!(post_url("http://h/", "/events/"), "http://h/events/");
    assert_eq!(post_url("http://h/", "events"), "http://h/events/");
}

#[test]
fn ffi_bool_reads_zero_as_false() {
    assert!(!parse_ffi_bool(0));
    assert!(parse_ffi_bool(1));
    assert!(parse_ffi_bool(7));
}

#[test]
fn setters_ignore_absent_input() {
    let mut settings = Settings::new();
    set_project_key(&mut settings, None);
    assert_eq!(settings.get_project_key(None), "");
    set_project_key(&mut settings, Some("k".to_string()));
    assert_eq!(settings.get_project_key(None), "k");
    set_user_id(&mut settings, None);
    assert_eq!(settings.get_user_id(None, Some(&"s".to_string())), "s");
    set_user_id(&mut settings, Some("u".to_string()));
    assert_eq!(settings.get_user_id(None, None), "u");
}
