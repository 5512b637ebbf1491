use scratch_dir::probe::{
    needs_probe, probe_pid, KillReply, PidState, ProbeReply, ProcessReply,
};
use scratch_dir::registry::registry;
use scratch_dir::sweep::{
    scratch_sweep_task, sweep_foreign_orphans, sweep_own_orphans, ForeignDir, SweepAction,
    SweepEvent, SWEEP_INTERVAL_SECS,
};

fn listing(names: &[&str]) -> Vec<String> {
    names.iter().map(|name| name.to_string()).collect()
}

#[test]
fn probe_never_claims_pid_zero_is_dead() {
    assert_eq!(probe_pid(0, None), PidState::Unknown);
    assert_eq!(
        probe_pid(0, Some(ProbeReply::Unix(KillReply::NoSuchProcess))),
        PidState::Unknown
    );
    assert!(!needs_probe(0));
    assert!(needs_probe(1));
}

#[test]
fn unix_replies_are_read_with_care() {
    let probe = |reply| probe_pid(7, Some(ProbeReply::Unix(reply)));
    assert_eq!(probe(KillReply::Delivered), PidState::Alive);
    assert_eq!(probe(KillReply::NoSuchProcess), PidState::Dead);
    assert_eq!(probe(KillReply::NotPermitted), PidState::Alive);
    assert_eq!(probe(KillReply::OtherError), PidState::Unknown);
    assert_eq!(probe_pid(7, None), PidState::Unknown);
}

#[test]
fn windows_replies_are_read_with_care() {
    let probe = |reply| probe_pid(7, Some(ProbeReply::Windows(reply)));
    assert_eq!(probe(ProcessReply::InvalidParameter), PidState::Dead);
    assert_eq!(probe(ProcessReply::NotOpened), PidState::Unknown);
    assert_eq!(probe(ProcessReply::ExitCodeUnreadable), PidState::Unknown);
    assert_eq!(probe(ProcessReply::StillActive), PidState::Alive);
    assert_eq!(probe(ProcessReply::Exited), PidState::Dead);
}

#[test]
fn only_a_confirmed_death_authorizes_a_delete() {
    assert!(PidState::Dead.authorizes_delete());
    assert!(!PidState::Alive.authorizes_delete());
    assert!(!PidState::Unknown.authorizes_delete());
}

#[test]
fn the_own_sweep_takes_what_is_ours_and_unclaimed() {
    let mut names = registry();
    names.register("10-aaaaaaaa");
    let entries = listing(&[
        "10-bbbbbbbb",
        "10-aaaaaaaa",
        "11-cccccccc",
        "_MEI123456",
        "10-short",
        "10-dddddddd",
        "+10-eeeeeeee",
    ]);
    assert_eq!(sweep_own_orphans(&names, &entries, 10), vec![0, 5]);
    names.unregister("10-aaaaaaaa");
    assert_eq!(sweep_own_orphans(&names, &entries, 10), vec![0, 1, 5]);
    assert_eq!(sweep_own_orphans(&names, &listing(&[]), 10), Vec::<usize>::new());
}

#[test]
fn the_foreign_sweep_leaves_our_own_pid_alone() {
    let entries = listing(&["10-bbbbbbbb", "11-cccccccc", "stray", "0-00000000", "11-dddddddd"]);
    assert_eq!(
        sweep_foreign_orphans(&entries, 10),
        vec![
            ForeignDir { index: 1, pid: 11 },
            ForeignDir { index: 3, pid: 0 },
            ForeignDir { index: 4, pid: 11 },
        ]
    );
}

#[test]
fn no_entry_is_swept_twice() {
    let names = registry();
    let entries = listing(&["10-bbbbbbbb", "11-cccccccc", "x", "10-00000000"]);
    let own = sweep_own_orphans(&names, &entries, 10);
    let foreign = sweep_foreign_orphans(&entries, 10);
    assert!(foreign.iter().all(|dir| !own.contains(&dir.index)));
    assert_eq!(own.len() + foreign.len(), 3);
}

#[test]
fn the_first_tick_is_skipped_and_every_later_one_sweeps() {
    assert_eq!(SWEEP_INTERVAL_SECS, 300);
    let mut task = scratch_sweep_task();
    assert_eq!(task.action(), SweepAction::AwaitTick);
    task.step(SweepEvent::Ticked);
    for panicked in [false, true, false] {
        assert_eq!(task.action(), SweepAction::AwaitTick);
        task.step(SweepEvent::Ticked);
        assert_eq!(task.action(), SweepAction::Sweep);
        task.step(SweepEvent::SweepEnded { panicked });
    }
    assert_eq!(task.action(), SweepAction::AwaitTick);
}

#[test]
fn a_sweep_is_waited_for() {
    let mut task = scratch_sweep_task();
    task.step(SweepEvent::SweepEnded { panicked: false });
    assert_eq!(task.action(), SweepAction::AwaitTick);
    task.step(SweepEvent::Ticked);
    task.step(SweepEvent::Ticked);
    assert_eq!(task.action(), SweepAction::Sweep);
    task.step(SweepEvent::Ticked);
    assert_eq!(task.action(), SweepAction::Sweep);
    task.step(SweepEvent::SweepEnded { panicked: false });
    assert_eq!(task.action(), SweepAction::AwaitTick);
}
