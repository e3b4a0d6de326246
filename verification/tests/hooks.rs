use uniswap_v4::hooks::HookRegistry;
use uniswap_v4::snapshot::{snapshot_file_name, SnapshotConfig, SnapshotStep};

fn called(registry: &HookRegistry<&'static str>) -> Vec<&'static str> {
    let state = 5u8;
    let mut names: Vec<&'static str> = registry
        .notify(&state)
        .into_iter()
        .map(|(hook, change)| {
            assert_eq!(*change, 5);
            *hook
        })
        .collect();
    names.sort();
    names
}

#[test]
fn given_hooks_are_notified() {
    assert!(called(&HookRegistry::new(vec![])).is_empty());
    assert_eq!(called(&HookRegistry::new(vec!["a", "b", "c"])), vec!["a", "b", "c"]);
}

#[test]
fn a_released_handle_removes_its_hook() {
    let mut registry = HookRegistry::new(vec!["a"]);
    let b = registry.register("b");
    let c = registry.register("c");
    assert_ne!(b, c);
    assert_eq!(called(&registry), vec!["a", "b", "c"]);
    registry.release(b);
    assert_eq!(called(&registry), vec!["a", "c"]);
    registry.release(b);
    registry.release(c);
    assert_eq!(called(&registry), vec!["a"]);
}

#[test]
fn registered_hooks_join_the_given_ones() {
    let mut registry = HookRegistry::new(vec!["a", "b"]);
    let c = registry.register("c");
    assert_eq!(called(&registry), vec!["a", "b", "c"]);
    let d = registry.register("d");
    assert_eq!(called(&registry), vec!["a", "b", "c", "d"]);
    registry.release(c);
    assert_eq!(called(&registry), vec!["a", "b", "d"]);
    registry.release(c);
    assert_eq!(called(&registry), vec!["a", "b", "d"]);
    registry.release(d);
    assert_eq!(called(&registry), vec!["a", "b"]);
}

#[test]
fn a_freed_identifier_is_not_given_out_again() {
    let mut registry = HookRegistry::new(vec![]);
    let a = registry.register("a");
    registry.release(a);
    let b = registry.register("b");
    assert_ne!(a, b);
    registry.release(a);
    assert_eq!(called(&registry), vec!["b"]);
}

#[test]
fn unregistering_an_unused_identifier_changes_nothing() {
    let mut registry = HookRegistry::new(vec!["a"]);
    registry.unregister(9);
    assert_eq!(called(&registry), vec!["a"]);
    registry.unregister(0);
    assert!(called(&registry).is_empty());
}

#[test]
fn default_snapshot_configuration() {
    let config = SnapshotConfig::default();
    assert_eq!(config.interval, 60_000_000_000);
    assert_eq!(config.directory, "./snapshots");
    assert_eq!(config.max_snapshots, 5);
}

#[test]
fn new_snapshot_configuration() {
    let config = SnapshotConfig::new(7, "here".to_string(), 2);
    assert_eq!((config.interval, config.directory.as_str(), config.max_snapshots), (7, "here", 2));
}

#[test]
fn snapshots_keep_the_interval() {
    let mut hook = SnapshotConfig::new(100, "here".to_string(), 2).into_state_hook();
    assert_eq!(hook.notified(99), SnapshotStep::Finished);
    assert_eq!(hook.notified(100), SnapshotStep::CreateDirectory);
    hook.step_done(SnapshotStep::WriteState, false, 100);
    assert_eq!(hook.notified(101), SnapshotStep::CreateDirectory);
    hook.step_done(SnapshotStep::WriteState, true, 101);
    assert_eq!(hook.notified(200), SnapshotStep::Finished);
    assert_eq!(hook.notified(201), SnapshotStep::CreateDirectory);
}

#[test]
fn the_steps_of_a_snapshot() {
    let mut hook = SnapshotConfig::default().into_state_hook();
    let mut step = SnapshotStep::CreateDirectory;
    let mut steps = vec![step];
    while step != SnapshotStep::Finished {
        step = hook.step_done(step, true, 5);
        steps.push(step);
    }
    assert_eq!(steps, vec![
        SnapshotStep::CreateDirectory,
        SnapshotStep::CreateFile,
        SnapshotStep::WriteState,
        SnapshotStep::ListDirectory,
        SnapshotStep::RemoveExpired,
        SnapshotStep::Finished,
    ]);
}

#[test]
fn failures_end_a_snapshot() {
    let mut hook = SnapshotConfig::default().into_state_hook();
    assert_eq!(
        hook.step_done(SnapshotStep::CreateDirectory, false, 5),
        SnapshotStep::CreateFile
    );
    for step in [SnapshotStep::CreateFile, SnapshotStep::WriteState, SnapshotStep::ListDirectory] {
        assert_eq!(hook.step_done(step, false, 5), SnapshotStep::Finished);
    }
    assert_eq!(hook.last, 0);
}

#[test]
fn snapshot_names_carry_the_time() {
    let hook = SnapshotConfig::default().into_state_hook();
    assert_eq!(hook.snapshot_name(0).unwrap(), "snapshot_19700101000000.json");
    assert_eq!(hook.snapshot_name(1431648000).unwrap(), "snapshot_20150515000000.json");
    assert_eq!(hook.snapshot_name(i64::MAX), None);
    assert_eq!(snapshot_file_name("x"), "snapshot_x.json");
    assert_ne!(snapshot_file_name("x"), snapshot_file_name("y"));
}

#[test]
fn the_oldest_files_expire() {
    let hook = SnapshotConfig::new(1, "here".to_string(), 2).into_state_hook();
    assert_eq!(hook.expired(&vec![Some(5), Some(3), Some(4), Some(9)]), vec![1, 2]);
    assert_eq!(hook.expired(&vec![Some(5), None, Some(4), None]), vec![1, 3]);
    assert_eq!(hook.expired(&vec![Some(5), Some(5), Some(5)]), vec![0]);
    assert!(hook.expired(&vec![Some(5), Some(-5)]).is_empty());
    assert!(hook.expired(&vec![]).is_empty());
}

#[test]
fn no_more_files_are_left_than_may_be_kept() {
    let hook = SnapshotConfig::new(1, "here".to_string(), 3).into_state_hook();
    let times: Vec<Option<i128>> = (0..20).map(|i| Some((i * 7) % 20)).collect();
    let expired = hook.expired(&times);
    assert_eq!(times.len() - expired.len(), 3);
    let newest_gone = expired.iter().map(|i| times[*i]).max().unwrap();
    let oldest_left = (0..20).filter(|i| !expired.contains(i)).map(|i| times[i]).min().unwrap();
    assert!(newest_gone <= oldest_left);
}
