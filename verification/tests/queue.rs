use hydra::queue::{cancelled_steps, InnerQueues, KillOutcome, ScheduledItem};

fn item(drv: &str, machine: u128, host: &str) -> ScheduledItem {
    ScheduledItem {
        drv_path: drv.to_string(),
        resolved_drv_path: None,
        machine_id: machine,
        machine_hostname: host.to_string(),
    }
}

#[test]
fn scheduled_add_and_remove() {
    let mut q = InnerQueues::new();
    assert_eq!(q.get_scheduled_count(), 0);
    q.add_job_to_scheduled(item("a.drv", 1, "h1"));
    q.add_job_to_scheduled(item("b.drv", 2, "h2"));
    assert_eq!(q.get_scheduled_count(), 2);
    assert_eq!(q.remove_job_from_scheduled("a.drv"), Some(item("a.drv", 1, "h1")));
    assert_eq!(q.remove_job_from_scheduled("a.drv"), None);
    assert_eq!(q.get_scheduled_count(), 1);
}

#[test]
fn scheduled_replaces_same_drv() {
    let mut q = InnerQueues::new();
    q.add_job_to_scheduled(item("a.drv", 1, "h1"));
    q.add_job_to_scheduled(item("a.drv", 3, "h3"));
    assert_eq!(q.get_scheduled_count(), 1);
    assert_eq!(q.remove_job_from_scheduled("a.drv"), Some(item("a.drv", 3, "h3")));
}

#[test]
fn scheduled_lists_each_once() {
    let mut q = InnerQueues::new();
    q.add_job_to_scheduled(item("a.drv", 1, "h1"));
    q.add_job_to_scheduled(item("b.drv", 2, "h2"));
    q.add_job_to_scheduled(item("c.drv", 3, "h3"));
    let mut all = q.get_scheduled();
    all.sort_by(|x, y| x.drv_path.cmp(&y.drv_path));
    assert_eq!(all, vec![item("a.drv", 1, "h1"), item("b.drv", 2, "h2"), item("c.drv", 3, "h3")]);
}

#[test]
fn cancelled_steps_keep_aborted_ones() {
    let items = vec![item("a.drv", 1, "h1"), item("b.drv", 2, "h2"), item("c.drv", 3, "h3"), item("d.drv", 4, "h4")];
    let outcomes = vec![
        KillOutcome::Aborted,
        KillOutcome::HasDependents,
        KillOutcome::Aborted,
        KillOutcome::AbortFailed,
    ];
    assert_eq!(
        cancelled_steps(&items, &outcomes),
        vec![("a.drv".to_string(), 1), ("c.drv".to_string(), 3)]
    );
    assert_eq!(cancelled_steps(&vec![item("e.drv", 5, "h")], &vec![KillOutcome::NoActiveBuild]), vec![]);
}
