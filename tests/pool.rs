use procpool::{Failure, Phase, PollEvent, Process, ProcessPool, SpawnOutcome};

fn pool_of(commands: &[&str]) -> ProcessPool {
    let mut pool = ProcessPool::new(10);
    for (i, c) in commands.iter().enumerate() {
        let mut p = Process::from_command(c);
        p.start(SpawnOutcome::Started { pid: 100 + i as u32, at: 0 });
        pool.add(p);
    }
    pool
}

fn exited(output: &str, at: u64) -> PollEvent {
    PollEvent::Exited { output: output.to_string(), at }
}

#[test]
fn new_pool_is_empty() {
    let pool = ProcessPool::new(10);
    assert!(pool.is_empty());
    assert_eq!(pool.len(), 0);
    assert_eq!(pool.capacity(), 10);
}

#[test]
fn capacity_is_not_enforced() {
    let mut small = ProcessPool::new(1);
    for c in ["echo a", "echo b", "echo c"] {
        small.add(Process::from_command(c));
    }
    assert_eq!(small.len(), 3);
    assert_eq!(small.capacity(), 1);
}

#[test]
fn created_processes_stay_in_pool() {
    let mut pool = ProcessPool::new(2);
    pool.add(Process::from_command("echo a"));
    let removed = pool.poll_sweep(vec![exited("a\n", 1)]);
    assert!(removed.is_empty());
    assert_eq!(pool.len(), 1);
    assert_eq!(pool.get(0).phase(), Phase::Created);
}

#[test]
fn sweep_finished_keeps_order_of_the_rest() {
    let mut pool = pool_of(&["echo a", "echo b", "echo c", "echo d"]);
    let removed = pool.poll_sweep(vec![
        PollEvent::Pending,
        exited("b\n", 1),
        PollEvent::WaitFailed,
        exited("d\n", 2),
    ]);
    assert_eq!(removed.len(), 2);
    assert_eq!(removed[0].output(), "b\n");
    assert_eq!(removed[1].output(), "d\n");
    assert_eq!(pool.len(), 2);
    assert_eq!(pool.get(0).args(), &vec!["a".to_string()]);
    assert_eq!(pool.get(1).args(), &vec!["c".to_string()]);
    assert!(pool.sweep_finished().is_empty());
    assert_eq!(pool.len(), 2);
}

#[test]
fn sweep_finished_removes_failed_spawns() {
    let mut pool = pool_of(&["echo a"]);
    let mut bad = Process::from_command("no-such-program");
    bad.start(SpawnOutcome::Failed { at: 1 });
    pool.add(bad);
    let removed = pool.sweep_finished();
    assert_eq!(removed.len(), 1);
    assert_eq!(removed[0].phase(), Phase::Failed(Failure::Spawn));
    assert_eq!(pool.len(), 1);
    assert_eq!(pool.get(0).program(), "echo");
}

#[test]
fn sleep_and_echo_scenario() {
    let mut pool = pool_of(&["sleep 1", "echo Hello", "echo World"]);
    let first = pool.poll_sweep(vec![PollEvent::Pending, exited("Hello\n", 5), exited("World\n", 6)]);
    assert_eq!(first.len(), 2);
    assert_eq!(first[0].args(), &vec!["Hello".to_string()]);
    assert_eq!(first[0].output(), "Hello\n");
    assert_eq!(first[1].args(), &vec!["World".to_string()]);
    assert_eq!(first[1].output(), "World\n");
    assert_eq!(pool.len(), 1);
    assert_eq!(pool.get(0).program(), "sleep");
    let second = pool.poll_sweep(vec![PollEvent::Pending]);
    assert!(second.is_empty());
    let third = pool.poll_sweep(vec![exited("", 1003)]);
    assert_eq!(third.len(), 1);
    assert_eq!(third[0].program(), "sleep");
    assert_eq!(third[0].output(), "");
    assert!(third[0].is_finished());
    assert!(third[0].finished_at() > first[0].finished_at());
    assert!(third[0].finished_at() > first[1].finished_at());
    assert!(pool.is_empty());
}

#[test]
fn slow_process_does_not_hold_up_fast_one() {
    let mut pool = pool_of(&["sleep 5", "echo fast"]);
    let removed = pool.poll_sweep(vec![PollEvent::Pending, exited("fast\n", 3)]);
    assert_eq!(removed.len(), 1);
    assert_eq!(removed[0].output(), "fast\n");
    assert_eq!(pool.len(), 1);
    assert_eq!(pool.get(0).phase(), Phase::Running);
}

#[test]
fn listing_scenario_output_is_kept() {
    let listing = "total 8\ndrwxr-xr-x 2 u u 4096 .\ndrwxr-xr-x 3 u u 4096 ..\n";
    let mut pool = pool_of(&["ls -al"]);
    let removed = pool.poll_sweep(vec![exited(listing, 2)]);
    assert_eq!(removed.len(), 1);
    assert_eq!(removed[0].args(), &vec!["-al".to_string()]);
    assert!(!removed[0].output().is_empty());
    assert_eq!(removed[0].output(), listing);
    assert!(pool.is_empty());
}

#[test]
fn spawn_failure_does_not_stop_others() {
    let mut pool = pool_of(&["echo ok"]);
    let mut bad = Process::from_command("no-such-program --flag");
    bad.start(SpawnOutcome::Failed { at: 1 });
    pool.add(bad);
    let removed = pool.poll_sweep(vec![PollEvent::Pending, PollEvent::Pending]);
    assert_eq!(removed.len(), 1);
    assert_eq!(removed[0].phase(), Phase::Failed(Failure::Spawn));
    assert_eq!(removed[0].program(), "no-such-program");
    let removed = pool.poll_sweep(vec![exited("ok\n", 4)]);
    assert_eq!(removed.len(), 1);
    assert_eq!(removed[0].output(), "ok\n");
    assert!(pool.is_empty());
}

#[test]
fn loop_drains_pool() {
    let mut pool = pool_of(&["a", "b", "c", "d"]);
    // process i exits at sweep i
    let mut sweep: u32 = 0;
    let mut reported = 0;
    while !pool.is_empty() {
        let events: Vec<PollEvent> = (0..pool.len())
            .map(|i| {
                if pool.get(i).pid() - 100 <= sweep {
                    exited("", sweep as u64)
                } else {
                    PollEvent::Pending
                }
            })
            .collect();
        reported += pool.poll_sweep(events).len();
        sweep += 1;
        assert!(sweep <= 4);
    }
    assert_eq!(reported, 4);
    assert_eq!(sweep, 4);
}

#[test]
fn read_failure_is_reported_and_removed() {
    let mut pool = pool_of(&["echo a"]);
    let removed = pool.poll_sweep(vec![PollEvent::ReadFailed { at: 2 }]);
    assert_eq!(removed.len(), 1);
    assert_eq!(removed[0].phase(), Phase::Failed(Failure::ReadOutput));
    assert!(pool.is_empty());
}
