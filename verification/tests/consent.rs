use cls::events::encode_event_pretty;
use cls::settings::ConsentQuery;
use cls::settings::EnvSnapshot;
use cls::settings::Settings;
use cls::settings::UserStore;
use cls::track_event;
use cls::track_resume;
use cls::TrackAct;

fn empty_env() -> EnvSnapshot {
    EnvSnapshot {
        project_key: None,
        debug: None,
        user_id: None,
        invocation_id: None,
        api_url: None,
        ci_present: false,
    }
}

fn args() -> (Option<String>, Option<String>, Option<String>) {
    (
        Some("app".to_string()),
        Some("usage".to_string()),
        Some("null".to_string()),
    )
}

#[test]
fn instance_dirnames() {
    let mut settings = Settings::new();

    assert_eq!(settings.get_instance_dirname(), "cls");

    settings.project_slug = "example".to_string();
    assert_eq!(settings.get_instance_dirname(), "example_cls");

    settings.instance_id = "hash".to_string();
    assert_eq!(settings.get_instance_dirname(), "example_cls_hash");

    settings.project_slug = "".to_string();
    assert_eq!(settings.get_instance_dirname(), "cls_hash");
}

#[test]
fn stored_consent_answers_without_prompt() {
    let settings = Settings::new();
    let env = empty_env();
    let store = r#"{"user_id": "u", "tracking_enabled": true}"#.to_string();
    let (slug, ty, meta) = args();
    let step = track_event(
        &settings, &env, Some(&store), true, "/tmp/s.json", slug, ty, meta, false,
    );
    assert!(step.store_write.is_none());
    assert!(matches!(step.act, TrackAct::Append));

    let denied = r#"{"user_id": "u", "tracking_enabled": false}"#.to_string();
    let (slug, ty, meta) = args();
    let step = track_event(
        &settings, &env, Some(&denied), true, "/tmp/s.json", slug, ty, meta, false,
    );
    assert!(matches!(step.act, TrackAct::Done));
}

#[test]
fn consent_persists_across_calls() {
    let settings = Settings::new();
    let env = empty_env();
    let (slug, ty, meta) = args();
    let step = track_event(
        &settings, &env, None, true, "/tmp/s.json", slug, ty, meta, false,
    );
    let written = step.store_write.clone().unwrap();
    let (error_path, _text) = match step.act {
        TrackAct::Prompt { error_path, text } => (error_path, text),
        _ => panic!("expected a prompt"),
    };
    assert!(!error_path);
    let step2 = track_resume(Some(&written), step.event.unwrap(), error_path, Some(true), false);
    let written2 = step2.store_write.clone().unwrap();
    assert!(matches!(step2.act, TrackAct::Append));
    // a later event reads the stored decision and never prompts
    let (slug, ty, meta) = args();
    let step3 = track_event(
        &settings, &env, Some(&written2), true, "/tmp/s.json", slug, ty, meta, false,
    );
    assert!(step3.store_write.is_none());
    assert!(matches!(step3.act, TrackAct::Append));
}

#[test]
fn error_events_reprompt_and_never_persist() {
    let settings = Settings::new();
    let env = empty_env();
    let store = r#"{"user_id": "u", "tracking_enabled": true}"#.to_string();
    let mk = || {
        (
            Some("app".to_string()),
            Some("error".to_string()),
            Some("null".to_string()),
        )
    };
    let (slug, ty, meta) = mk();
    let step1 = track_event(
        &settings, &env, Some(&store), true, "/tmp/s.json", slug, ty, meta, false,
    );
    let (error_path1, _) = match step1.act {
        TrackAct::Prompt { error_path, text } => (error_path, text),
        _ => panic!("error event must prompt even with stored consent"),
    };
    assert!(error_path1);
    let resume1 = track_resume(Some(&store), step1.event.unwrap(), true, Some(true), false);
    assert!(resume1.store_write.is_none());
    assert!(matches!(resume1.act, TrackAct::Append));

    let (slug, ty, meta) = mk();
    let step2 = track_event(
        &settings, &env, Some(&store), true, "/tmp/s.json", slug, ty, meta, false,
    );
    assert!(matches!(step2.act, TrackAct::Prompt { .. }));
    let resume2 = track_resume(Some(&store), step2.event.unwrap(), true, Some(false), false);
    assert!(resume2.store_write.is_none());
    assert!(matches!(resume2.act, TrackAct::Done));
}

#[test]
fn ci_short_circuits_every_prompt() {
    let mut settings = Settings::new();
    settings.set_is_ci(true);
    let env = empty_env();
    let store = r#"{"user_id": "u", "tracking_enabled": false}"#.to_string();
    let (slug, ty, meta) = args();
    let step = track_event(
        &settings, &env, Some(&store), true, "/tmp/s.json", slug, ty, meta, false,
    );
    // permit equals the configured flag exactly, stored settings ignored
    assert!(matches!(step.act, TrackAct::Done));

    settings.ci_tracking_enabled = true;
    let (slug, ty, meta) = args();
    let step = track_event(
        &settings, &env, Some(&store), true, "/tmp/s.json", slug, ty, meta, false,
    );
    assert!(matches!(step.act, TrackAct::Append));
}

#[test]
fn no_terminal_denies_and_persists_nothing() {
    let settings = Settings::new();
    let env = empty_env();
    let (slug, ty, meta) = args();
    let step = track_event(
        &settings, &env, None, false, "/tmp/s.json", slug, ty, meta, false,
    );
    assert!(matches!(step.act, TrackAct::Done));
    // only the user id bootstrap was written; no consent decision appears
    let written = step.store_write.unwrap();
    let store = UserStore::parse(Some(&written));
    assert!(store.has("user_id"));
    assert!(!store.has("tracking_enabled"));
    assert!(store.get_tracking().is_none());
}

#[test]
fn malformed_input_is_a_pure_noop() {
    let settings = Settings::new();
    let env = empty_env();
    let cases: Vec<(Option<String>, Option<String>, Option<String>)> = vec![
        (None, Some("t".to_string()), Some("null".to_string())),
        (Some("s".to_string()), None, Some("null".to_string())),
        (Some("s".to_string()), Some("t".to_string()), None),
    ];
    for (slug, ty, meta) in cases {
        let step = track_event(
            &settings, &env, None, true, "/tmp/s.json", slug, ty, meta, true,
        );
        assert!(step.store_write.is_none());
        assert!(matches!(step.act, TrackAct::Done));
        assert!(step.event.is_none());
    }
}

#[test]
fn prompt_failure_means_do_not_track() {
    let settings = Settings::new();
    let env = empty_env();
    let (slug, ty, meta) = args();
    let step = track_event(
        &settings, &env, None, true, "/tmp/s.json", slug, ty, meta, true,
    );
    let event = step.event.unwrap();
    let resume = track_resume(None, event, false, None, true);
    assert!(resume.store_write.is_none());
    assert!(matches!(resume.act, TrackAct::Done));
}

#[test]
fn prompt_text_is_rendered_from_the_template() {
    let mut settings = Settings::new();
    settings.request_permission_prompt = "  D:{event_data};P:{settings_path}  ".to_string();
    let env = empty_env();
    let (slug, ty, meta) = args();
    let step = track_event(
        &settings, &env, None, true, "/etc/cls/settings.json", slug, ty, meta, false,
    );
    let text = match step.act {
        TrackAct::Prompt { error_path: false, text } => text,
        _ => panic!("expected the general prompt"),
    };
    let pretty = encode_event_pretty(step.event.as_ref().unwrap());
    let expected = format!("D:{};P:/etc/cls/settings.json", pretty);
    assert_eq!(text, expected);
}

#[test]
fn should_track_event_consults_the_table() {
    let settings = Settings::new();
    let event = cls::events::Event::new("a", "usage", "null".to_string(), "u", "i");
    match settings.should_track_event(&event, Some(true), true, false, "/tmp/s.json") {
        ConsentQuery::Decided { permit } => assert!(permit),
        _ => panic!("stored decision must answer without a prompt"),
    }
    match settings.should_track_event(&event, None, false, false, "/tmp/s.json") {
        ConsentQuery::Decided { permit } => assert!(!permit),
        _ => panic!("no terminal must deny"),
    }
}
