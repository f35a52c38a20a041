use cargo_impact::args::{FailOn, ImpactArgs};
use cargo_impact::config::{apply_config, ConfigFile, Defaults};
use cargo_impact::format::Format;

fn fresh_args() -> ImpactArgs {
    ImpactArgs {
        test: false,
        format: Format::Text,
        since: "HEAD".into(),
        manifest_dir: None,
        confidence_min: 0,
        fail_on: None,
        semver_checks: false,
        rust_analyzer: false,
        features: Vec::new(),
        all_features: false,
        no_default_features: false,
        budget: 0,
        context: false,
        feature_powerset: false,
        macro_expand: false,
    }
}

#[test]
fn apply_sets_flags_when_cli_left_them_default() {
    let mut args = fresh_args();
    let defaults = Defaults {
        confidence_min: Some(60),
        fail_on: Some("high".into()),
        semver_checks: Some(true),
        budget: Some(8000),
        ..Defaults::default()
    };
    apply_config(&defaults, &mut args);
    assert_eq!(args.confidence_min, 60);
    assert!(matches!(args.fail_on, Some(FailOn::High)));
    assert!(args.semver_checks);
    assert_eq!(args.budget, 8000);
}

#[test]
fn apply_does_not_override_explicit_cli_values() {
    let mut args = fresh_args();
    args.confidence_min = 90;
    args.fail_on = Some(FailOn::Low);
    args.budget = 1000;

    let defaults = Defaults {
        confidence_min: Some(60),
        fail_on: Some("high".into()),
        budget: Some(8000),
        ..Defaults::default()
    };
    apply_config(&defaults, &mut args);
    assert_eq!(args.confidence_min, 90);
    assert!(matches!(args.fail_on, Some(FailOn::Low)));
    assert_eq!(args.budget, 1000);
}

#[test]
fn invalid_fail_on_string_leaves_args_untouched_and_logs() {
    let mut args = fresh_args();
    let defaults = Defaults { fail_on: Some("Catastrophic".into()), ..Defaults::default() };
    let refused = apply_config(&defaults, &mut args);
    assert!(args.fail_on.is_none());
    assert_eq!(refused, Some("catastrophic".to_string()));
}

#[test]
fn fail_levels_are_named_in_any_case() {
    for (name, level) in
        [("HIGH", FailOn::High), ("Medium", FailOn::Medium), ("low", FailOn::Low)]
    {
        let mut args = fresh_args();
        let defaults = Defaults { fail_on: Some(name.into()), ..Defaults::default() };
        assert_eq!(apply_config(&defaults, &mut args), None);
        assert_eq!(args.fail_on, Some(level));
    }
}

#[test]
fn features_of_the_run_win_over_the_defaults() {
    let defaults = Defaults { features: Some(vec!["a".into()]), ..Defaults::default() };
    let mut args = fresh_args();
    apply_config(&defaults, &mut args);
    assert_eq!(args.features, vec!["a"]);
    args.features = vec!["b".into()];
    apply_config(&defaults, &mut args);
    assert_eq!(args.features, vec!["b"]);
}

#[test]
fn no_defaults_change_nothing() {
    let mut args = fresh_args();
    assert_eq!(apply_config(&ConfigFile::default().defaults, &mut args), None);
    assert_eq!(args, fresh_args());
}

#[test]
fn a_default_switches_a_flag_on_and_never_off() {
    let mut args = fresh_args();
    args.semver_checks = true;
    let defaults = Defaults {
        semver_checks: Some(false),
        rust_analyzer: Some(true),
        all_features: Some(false),
        no_default_features: Some(true),
        ..Defaults::default()
    };
    apply_config(&defaults, &mut args);
    assert!(args.semver_checks);
    assert!(args.rust_analyzer);
    assert!(!args.all_features);
    assert!(args.no_default_features);
}
