use autocopy::models::Folder;
use autocopy::schedule::{group_by_interval, GroupWorker, IntervalGroup, WorkerAction};

fn profile(id: i32, interval: i32) -> Folder {
    Folder {
        id,
        name: format!("profile{}", id),
        location: format!("/src/{}", id),
        destiny: format!("/dst/{}", id),
        interval,
    }
}

fn ids(group: &IntervalGroup) -> Vec<i32> {
    group.profiles.iter().map(|f| f.id).collect()
}

#[test]
fn grouping_partitions_by_interval() {
    let profiles = vec![profile(1, 5), profile(2, 30), profile(3, 5), profile(4, 10), profile(5, 30)];
    let groups = group_by_interval(&profiles);
    assert_eq!(groups.len(), 3);
    assert_eq!(groups[0].interval, 5);
    assert_eq!(ids(&groups[0]), vec![1, 3]);
    assert_eq!(groups[1].interval, 30);
    assert_eq!(ids(&groups[1]), vec![2, 5]);
    assert_eq!(groups[2].interval, 10);
    assert_eq!(ids(&groups[2]), vec![4]);
    let total: usize = groups.iter().map(|g| g.profiles.len()).sum();
    assert_eq!(total, profiles.len());
    for g in &groups {
        assert!(g.profiles.iter().all(|f| f.interval == g.interval));
    }
}

#[test]
fn grouping_keeps_whole_profiles() {
    let profiles = vec![profile(7, 2), profile(8, 2)];
    let groups = group_by_interval(&profiles);
    assert_eq!(groups.len(), 1);
    assert_eq!(groups[0].profiles, profiles);
}

#[test]
fn grouping_of_nothing_is_empty() {
    let groups = group_by_interval(&Vec::new());
    assert!(groups.is_empty());
}

#[test]
fn grouping_is_stable() {
    let profiles = vec![profile(1, 3), profile(2, 1), profile(3, 3), profile(4, 1)];
    assert_eq!(group_by_interval(&profiles), group_by_interval(&profiles));
}

#[test]
fn failure_skips_rest_of_tick_then_retries() {
    // three profiles sharing interval 5; the second one fails
    let mut w = GroupWorker::new(5, 3);
    let mut attempted = Vec::new();
    let outcomes = [true, false, true];
    loop {
        match w.next_action() {
            WorkerAction::Copy(i) => {
                attempted.push(i);
                w.record(outcomes[i]);
            }
            WorkerAction::Sleep(secs) => {
                assert_eq!(secs, 5);
                break;
            }
        }
    }
    assert_eq!(attempted, vec![0, 1]);
    w.wake();
    let mut next_tick = Vec::new();
    loop {
        match w.next_action() {
            WorkerAction::Copy(i) => {
                next_tick.push(i);
                w.record(true);
            }
            WorkerAction::Sleep(_) => break,
        }
    }
    assert_eq!(next_tick, vec![0, 1, 2]);
}

#[test]
fn record_outside_a_copy_changes_nothing() {
    let mut w = GroupWorker::new(4, 1);
    w.record(true);
    assert_eq!(w.next_action(), WorkerAction::Sleep(4));
    w.record(false);
    assert_eq!(w, GroupWorker { interval: 4, size: 1, position: 1 });
}

#[test]
fn sleep_uses_interval_bits() {
    assert_eq!(GroupWorker::new(0, 0).next_action(), WorkerAction::Sleep(0));
    assert_eq!(GroupWorker::new(-1, 0).next_action(), WorkerAction::Sleep(u64::MAX));
}

fn ticks_completed(w: &mut GroupWorker, window: u64) -> u32 {
    let mut clock: u64 = 0;
    let mut ticks = 0;
    loop {
        match w.next_action() {
            WorkerAction::Copy(_) => w.record(true),
            WorkerAction::Sleep(secs) => {
                clock += secs;
                if clock > window {
                    return ticks;
                }
                ticks += 1;
                w.wake();
            }
        }
    }
}

#[test]
fn intervals_run_independent_schedules() {
    let profiles = vec![profile(1, 5), profile(2, 30)];
    let groups = group_by_interval(&profiles);
    let mut fast = GroupWorker::for_group(&groups[0]);
    let mut slow = GroupWorker::for_group(&groups[1]);
    assert_eq!(ticks_completed(&mut fast, 35), 7);
    assert_eq!(ticks_completed(&mut slow, 35), 1);
}
