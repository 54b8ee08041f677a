use quip_solver_core::logging::{default_filter, resolve_directives};
use tracing_subscriber::EnvFilter;

#[test]
fn rust_log_beats_the_level_flag() {
    let d = resolve_directives("info", Some("quip_miner_core=trace")).unwrap();
    assert_eq!(d, "quip_miner_core=trace");
}

#[test]
fn blank_rust_log_falls_back_to_the_level_flag() {
    assert_eq!(
        resolve_directives("debug", Some("   ")).unwrap(),
        default_filter("debug")
    );
    assert_eq!(
        resolve_directives("debug", None).unwrap(),
        default_filter("debug")
    );
}

#[test]
fn default_filter_keeps_the_transport_quiet() {
    let d = default_filter("debug");
    assert!(d.starts_with("debug,"), "{d}");
    assert!(d.contains("tonic=warn"), "{d}");
    assert!(d.contains("h2=warn"), "{d}");
}

#[test]
fn the_default_filter_names_every_transport_crate() {
    assert_eq!(
        default_filter("info"),
        "info,tonic=warn,tower=warn,hyper=warn,hyper_util=warn,h2=warn"
    );
}

#[test]
fn every_level_the_cli_accepts_parses_as_directives() {
    for level in ["trace", "debug", "info", "warn", "error"] {
        let d = default_filter(level);
        assert!(EnvFilter::try_new(&d).is_ok(), "{d}");
    }
}

/// A misspelled level must not degrade into a target filter that silences
/// the miner.
#[test]
fn a_misspelled_level_is_rejected_rather_than_silencing_the_miner() {
    let e = resolve_directives("infoo", None).unwrap_err();
    assert!(e.contains("infoo"), "{e}");
    assert!(EnvFilter::try_new(default_filter("infoo")).is_ok());
}

#[test]
fn a_misspelled_level_is_rejected_even_when_rust_log_overrides_it() {
    assert!(resolve_directives("infoo", Some("trace")).is_err());
}

#[test]
fn a_misspelled_level_is_shown_in_quotes() {
    assert_eq!(
        resolve_directives("in\"fo", None),
        Err(r#"unknown --log-level "in\"fo": expected one of trace, debug, info, warn, error"#.to_owned())
    );
}
