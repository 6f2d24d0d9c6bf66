use hydra::notify::{
    build_finished_payload, parse_build_ids, step_finished_payload, step_started_payload,
    WaiterRegistry,
};

#[test]
fn build_finished_payload_joins_ids() {
    assert_eq!(build_finished_payload(5, &[]), "5");
    assert_eq!(build_finished_payload(5, &[6, -7, 0]), "5\t6\t-7\t0");
    assert_eq!(build_finished_payload(i32::MIN, &[i32::MAX]), "-2147483648\t2147483647");
}

#[test]
fn step_payloads() {
    assert_eq!(step_started_payload("/nix/store/x.drv", 2), "/nix/store/x.drv\t2");
    assert_eq!(
        step_finished_payload("/nix/store/x.drv", -1, "/log/x"),
        "/nix/store/x.drv\t-1\t/log/x"
    );
}

#[test]
fn parse_build_ids_skips_junk() {
    assert_eq!(parse_build_ids("1\t2\t3"), vec![1, 2, 3]);
    assert_eq!(parse_build_ids("1\tx\t-3\t"), vec![1, -3]);
    assert_eq!(parse_build_ids(""), Vec::<i32>::new());
    assert_eq!(parse_build_ids("2147483648\t-2147483648"), vec![i32::MIN]);
}

#[test]
fn payload_roundtrip() {
    let deps = [10, -20, 30];
    let payload = build_finished_payload(7, &deps);
    assert_eq!(parse_build_ids(&payload), vec![7, 10, -20, 30]);
}

#[test]
fn waiters_are_woken_in_payload_order() {
    let mut reg: WaiterRegistry<&str> = WaiterRegistry::new();
    reg.register(1, "one");
    reg.register(2, "two");
    reg.register(3, "three");
    assert_eq!(reg.len(), 3);
    let woken = reg.take_finished("3\t9\t1");
    assert_eq!(woken, vec!["three", "one"]);
    assert_eq!(reg.len(), 1);
    assert_eq!(reg.take_finished("3\t1"), Vec::<&str>::new());
    assert_eq!(reg.take_finished("2"), vec!["two"]);
    assert_eq!(reg.len(), 0);
}

#[test]
fn waiter_registration_replaced_and_forgotten() {
    let mut reg: WaiterRegistry<u8> = WaiterRegistry::new();
    reg.register(4, 1);
    reg.register(4, 2);
    assert_eq!(reg.len(), 1);
    reg.forget(4);
    reg.forget(5);
    assert_eq!(reg.len(), 0);
    assert_eq!(reg.take_finished("4"), Vec::<u8>::new());
    reg.register(6, 3);
    assert_eq!(reg.take_finished("6\t6"), vec![3]);
}
