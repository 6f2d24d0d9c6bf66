use hydra::resolve::{
    collect_chain_results, flatten_chain, plan_resolution, resolution_chains, ResolvePlan,
    SingleDerivedPath,
};

fn opaque(p: &str) -> SingleDerivedPath {
    SingleDerivedPath::Opaque(p.to_string())
}

fn built(parent: SingleDerivedPath, output: &str) -> SingleDerivedPath {
    SingleDerivedPath::Built { drv_path: Box::new(parent), output: output.to_string() }
}

#[test]
fn flatten_opaque() {
    let (root, outputs) = flatten_chain(&opaque("foo.drv"), &"out".to_string());
    assert_eq!(root, "foo.drv");
    assert_eq!(outputs, vec!["out".to_string()]);
}

#[test]
fn flatten_nested_chain() {
    let p = built(built(opaque("ddd.drv"), "out"), "dev");
    let (root, outputs) = flatten_chain(&p, &"bin".to_string());
    assert_eq!(root, "ddd.drv");
    assert_eq!(outputs, vec!["out".to_string(), "dev".to_string(), "bin".to_string()]);
}

#[test]
fn chains_for_a_ragged_batch() {
    let inputs = vec![
        (opaque("aaa.drv"), "out".to_string()),
        (built(opaque("bbb.drv"), "out"), "lib".to_string()),
        (built(built(opaque("ddd.drv"), "out"), "dev"), "bin".to_string()),
    ];
    let chains = resolution_chains(&inputs);
    assert_eq!(chains.len(), 3);
    assert_eq!(chains[0], ("aaa.drv".to_string(), vec!["out".to_string()]));
    assert_eq!(chains[1], ("bbb.drv".to_string(), vec!["out".to_string(), "lib".to_string()]));
    assert_eq!(
        chains[2],
        ("ddd.drv".to_string(), vec!["out".to_string(), "dev".to_string(), "bin".to_string()])
    );
}

#[test]
fn plan_not_resolvable_when_input_addressed() {
    let inputs = vec![built(opaque("x.drv"), "out")];
    assert_eq!(plan_resolution(&[false, true], &inputs), ResolvePlan::NotResolvable);
}

#[test]
fn plan_needs_lookup_for_built_inputs() {
    let inputs = vec![opaque("/nix/store/a"), built(opaque("x.drv"), "out")];
    assert_eq!(plan_resolution(&[false], &inputs), ResolvePlan::NeedsLookup);
}

#[test]
fn plan_already_resolved() {
    let inputs = vec![opaque("/nix/store/a"), opaque("/nix/store/b")];
    assert_eq!(
        plan_resolution(&[false, false], &inputs),
        ResolvePlan::AlreadyResolved(vec!["/nix/store/a".to_string(), "/nix/store/b".to_string()])
    );
    assert_eq!(plan_resolution(&[], &[]), ResolvePlan::AlreadyResolved(vec![]));
}

#[test]
fn chain_results_in_chain_order() {
    let rows = vec![(2, Some("bar-lib".to_string())), (1, Some("foo-out".to_string()))];
    let r = collect_chain_results(2, rows).unwrap();
    assert_eq!(r, vec![Some("foo-out".to_string()), Some("bar-lib".to_string())]);
}

#[test]
fn chain_results_missing_stay_none() {
    let rows = vec![(1, Some("result".to_string()))];
    let r = collect_chain_results(2, rows).unwrap();
    assert_eq!(r, vec![Some("result".to_string()), None]);
    assert_eq!(collect_chain_results(0, vec![]).unwrap(), Vec::<Option<String>>::new());
}

#[test]
fn chain_results_later_row_wins() {
    let rows = vec![(1, Some("old".to_string())), (1, Some("new".to_string()))];
    assert_eq!(collect_chain_results(1, rows).unwrap(), vec![Some("new".to_string())]);
}

#[test]
fn chain_results_reject_index_zero() {
    let rows = vec![(1, Some("a".to_string())), (0, None)];
    assert!(collect_chain_results(1, rows).is_err());
}
