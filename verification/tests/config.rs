use quip_solver_core::config::{
    config_override, override_warning, resolve_override, warn_unknown_fields,
};

#[test]
fn override_wins_and_reports_only_on_change() {
    // config present + different -> config value
    assert_eq!(config_override("utilization", 100u32, Some(60)), 60);
    // config present + same -> cli value (no effective change)
    assert_eq!(config_override("utilization", 60u32, Some(60)), 60);
    // config absent -> cli value
    assert_eq!(config_override("utilization", 100u32, None), 100);
    // works for bool (yielding)
    assert!(config_override("yielding", false, Some(true)));
}

#[test]
fn only_a_change_is_reported() {
    assert_eq!(resolve_override(100u32, Some(60)), (60, true));
    assert_eq!(resolve_override(60u32, Some(60)), (60, false));
    assert_eq!(resolve_override(60u32, None), (60, false));
}

#[test]
fn unknown_fields_are_named_and_session_keys_are_not() {
    let keys = vec!["num_sweeps".to_owned(), "typo".to_owned(), "lanes".to_owned()];
    assert_eq!(
        warn_unknown_fields("cuda", &keys),
        vec![
            "config: unknown field 'typo' for cuda (ignored)",
            "config: unknown field 'lanes' for cuda (ignored)",
        ]
    );
}

#[test]
fn only_an_override_is_worth_a_warning() {
    let (value, overridden) = resolve_override(100u32, Some(60));
    assert_eq!(
        override_warning("utilization", "100", &value.to_string(), overridden).as_deref(),
        Some("config overrides utilization: 100 -> 60 (from coordinator)")
    );
    let (value, overridden) = resolve_override(60u32, Some(60));
    assert_eq!(override_warning("utilization", "60", &value.to_string(), overridden), None);
}
