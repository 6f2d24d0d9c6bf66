use hydra::steps::{
    build_limits, check_output_paths, collect_dep_steps, dedup_build_ids, log_file_parts,
    marks_cached, outputs_finished, parse_required_features, queue_action, representative_build,
    should_retry, unsupported_message, DepSteps, DependentBuild, QueueAction, StepCreation,
};

fn dep(id: i32, drv: &str, maxsilent: Option<i32>, timeout: Option<i32>) -> DependentBuild {
    DependentBuild { id, drvpath: drv.to_string(), maxsilent, timeout }
}

fn s(x: &str) -> String {
    x.to_string()
}

#[test]
fn required_features_split_on_spaces() {
    assert_eq!(parse_required_features("kvm big-parallel"), vec![s("kvm"), s("big-parallel")]);
    assert_eq!(parse_required_features("  kvm   nixos-test "), vec![s("kvm"), s("nixos-test")]);
    assert_eq!(parse_required_features(""), Vec::<String>::new());
    assert_eq!(parse_required_features("a\tb"), vec![s("a\tb")]);
}

#[test]
fn limits_are_the_largest() {
    let deps = vec![dep(1, "a", Some(10), None), dep(2, "b", Some(7200), Some(60))];
    assert_eq!(build_limits(&deps), (7200, 36000));
    let deps = vec![dep(1, "a", Some(10), Some(5)), dep(2, "b", Some(20), Some(6))];
    assert_eq!(build_limits(&deps), (20, 6));
}

#[test]
fn limits_default_without_builds() {
    assert_eq!(build_limits(&[]), (3600, 36000));
    assert_eq!(build_limits(&[dep(1, "a", None, None)]), (3600, 36000));
}

#[test]
fn representative_prefers_own_derivation() {
    let deps = vec![dep(1, "other.drv", None, None), dep(2, "own.drv", None, None), dep(3, "own.drv", None, None)];
    assert_eq!(representative_build(&deps, "own.drv"), Some(1));
    assert_eq!(representative_build(&deps, "missing.drv"), Some(0));
    assert_eq!(representative_build(&[], "own.drv"), None);
}

#[test]
fn log_file_parts_split_after_two_bytes() {
    assert_eq!(
        log_file_parts("abcdefgh-hello.drv"),
        (s("ab/"), s("cdefgh-hello.drv"))
    );
    assert_eq!(log_file_parts("xy"), (s("xy/"), s("")));
    assert_eq!(log_file_parts("éz"), (s("é/"), s("z")));
}

#[test]
fn output_paths_match() {
    let expected = vec![(s("out"), Some(s("/nix/store/a-out"))), (s("dev"), None)];
    let actual = vec![(s("out"), s("/nix/store/a-out")), (s("dev"), s("/nix/store/a-dev"))];
    assert!(check_output_paths(&expected, &actual).is_ok());
    assert!(check_output_paths(&expected, &[]).is_ok());
}

#[test]
fn output_path_mismatch_reported() {
    let expected = vec![
        (s("dev"), Some(s("/nix/store/a-dev"))),
        (s("out"), Some(s("/nix/store/a-out"))),
    ];
    let actual = vec![(s("out"), s("/nix/store/b-out")), (s("dev"), s("/nix/store/b-dev"))];
    let m = check_output_paths(&expected, &actual).unwrap_err();
    assert_eq!((m.name.as_str(), m.expected.as_str(), m.actual.as_str()), ("dev", "/nix/store/a-dev", "/nix/store/b-dev"));
    assert_eq!(
        m.message("/nix/store/x.drv"),
        "output path mismatch for output `dev` of /nix/store/x.drv: expected /nix/store/a-dev, got /nix/store/b-dev"
    );
}

#[test]
fn cached_unless_owned() {
    assert!(!marks_cached(Some(4), 4, false));
    assert!(marks_cached(Some(4), 4, true));
    assert!(marks_cached(Some(3), 4, false));
    assert!(marks_cached(None, 4, false));
}

#[test]
fn dedup_keeps_first() {
    assert_eq!(dedup_build_ids(&[3, 1, 3, 2, 1, 4]), vec![3, 1, 2, 4]);
    assert_eq!(dedup_build_ids(&[]), Vec::<i32>::new());
    assert_eq!(dedup_build_ids(&[5, 5, 5]), vec![5]);
}

#[test]
fn dep_steps_collected() {
    let results = vec![
        StepCreation::Valid(s("a.drv")),
        StepCreation::Finished,
        StepCreation::Valid(s("b.drv")),
    ];
    assert_eq!(collect_dep_steps(&results), DepSteps::Ready(vec![s("a.drv"), s("b.drv")]));
    assert_eq!(collect_dep_steps(&[]), DepSteps::Ready(vec![]));
}

#[test]
fn dep_steps_first_failure_wins() {
    let results = vec![
        StepCreation::Valid(s("a.drv")),
        StepCreation::PreviousFailure(s("x.drv")),
        StepCreation::PreviousFailure(s("y.drv")),
    ];
    assert_eq!(collect_dep_steps(&results), DepSteps::PreviousFailure(s("x.drv")));
}

#[test]
fn finished_outputs() {
    assert!(outputs_finished(0, true, 0));
    assert!(outputs_finished(0, false, 0));
    assert!(outputs_finished(3, true, 3));
    assert!(!outputs_finished(3, true, 2));
    assert!(!outputs_finished(3, false, 3));
}

#[test]
fn retries() {
    assert!(should_retry(true, 0, 3));
    assert!(should_retry(true, 2, 3));
    assert!(!should_retry(true, 3, 3));
    assert!(!should_retry(false, 0, 3));
}

#[test]
fn unsupported_text() {
    assert_eq!(unsupported_message("riscv64-linux"), "unsupported system type 'riscv64-linux'");
}

#[test]
fn queue_actions() {
    assert_eq!(queue_action("builds_added"), QueueAction::BuildsAdded);
    assert_eq!(queue_action("builds_restarted"), QueueAction::BuildsRestarted);
    assert_eq!(queue_action("builds_cancelled"), QueueAction::QueueChanged);
    assert_eq!(queue_action("builds_deleted"), QueueAction::QueueChanged);
    assert_eq!(queue_action("builds_bumped"), QueueAction::QueueChanged);
    assert_eq!(queue_action("jobset_shares_changed"), QueueAction::JobsetSharesChanged);
    assert_eq!(queue_action("timer_reached"), QueueAction::Other);
}
