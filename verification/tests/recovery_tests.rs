use recovery_backup_core::recovery::{
    Action, Directive, Event, KillOutcome, Phase, Recovery, ERASE_PAUSE_SECS, KILL_PAUSE_SECS,
    MAX_KILL_PASSES,
};

fn at_once(action: Action) -> Option<Directive> {
    Some(Directive { wait_secs: 0, action })
}

fn after(wait_secs: u64, action: Action) -> Option<Directive> {
    Some(Directive { wait_secs, action })
}

fn run(machine: &mut Recovery, events: &[Event]) -> Vec<Option<Directive>> {
    events.iter().map(|e| machine.step(*e)).collect()
}

#[test]
fn constants_match_the_procedure() {
    assert_eq!(KILL_PAUSE_SECS, 5);
    assert_eq!(ERASE_PAUSE_SECS, 3);
    assert_eq!(MAX_KILL_PASSES, 3);
}

#[test]
fn recover_without_hook_spawns_the_server() {
    let mut m = Recovery::new(false, false);
    assert_eq!(m.phase, Phase::Init);
    let directives = run(
        &mut m,
        &[
            Event::Started,
            Event::KillPass(KillOutcome::Completed),
            Event::WorldProbed(true),
            Event::RemoveAttempted(true),
            Event::ArchiverExited(true),
            Event::SpawnAttempted(true),
        ],
    );
    assert_eq!(
        directives,
        vec![
            at_once(Action::TerminateServer),
            at_once(Action::ProbeWorld),
            at_once(Action::RemoveWorld),
            at_once(Action::Extract),
            at_once(Action::SpawnServer),
            at_once(Action::Finish),
        ]
    );
    assert_eq!(m.phase, Phase::Done);
    assert!(m.is_terminal());
}

#[test]
fn recover_with_hook_and_token_skips_the_spawn() {
    let mut m = Recovery::new(true, true);
    let directives = run(
        &mut m,
        &[
            Event::Started,
            Event::HookReturned,
            Event::KillPass(KillOutcome::Completed),
            Event::WorldProbed(true),
            Event::RemoveAttempted(true),
            Event::ArchiverExited(true),
            Event::HookReturned,
        ],
    );
    assert_eq!(
        directives,
        vec![
            at_once(Action::CallStopHook),
            after(5, Action::TerminateServer),
            at_once(Action::ProbeWorld),
            at_once(Action::RemoveWorld),
            at_once(Action::Extract),
            at_once(Action::CallStartHook),
            at_once(Action::Finish),
        ]
    );
    assert_eq!(m.phase, Phase::Done);
    assert_eq!(m.step(Event::SpawnAttempted(true)), None);
}

#[test]
fn recover_with_hook_without_token_spawns() {
    let mut m = Recovery::new(true, false);
    run(
        &mut m,
        &[
            Event::Started,
            Event::HookReturned,
            Event::KillPass(KillOutcome::Completed),
            Event::WorldProbed(false),
            Event::ArchiverExited(true),
        ],
    );
    assert_eq!(m.phase, Phase::HookStart);
    assert_eq!(m.step(Event::HookReturned), at_once(Action::SpawnServer));
    assert_eq!(m.phase, Phase::Spawning);
    assert_eq!(m.step(Event::SpawnAttempted(true)), at_once(Action::Finish));
}

#[test]
fn token_without_hook_changes_nothing() {
    let mut m = Recovery::new(false, true);
    assert_eq!(m.step(Event::Started), at_once(Action::TerminateServer));
    run(&mut m, &[Event::KillPass(KillOutcome::Completed), Event::WorldProbed(false)]);
    assert_eq!(m.step(Event::ArchiverExited(true)), at_once(Action::SpawnServer));
}

#[test]
fn three_failed_passes_move_on() {
    let mut m = Recovery::new(false, false);
    m.step(Event::Started);
    assert_eq!(m.step(Event::KillPass(KillOutcome::ListingFailed)), after(5, Action::TerminateServer));
    assert_eq!(m.failed_passes, 1);
    assert_eq!(m.step(Event::KillPass(KillOutcome::SignalFailed)), after(5, Action::TerminateServer));
    assert_eq!(m.failed_passes, 2);
    assert_eq!(m.phase, Phase::Killing);
    assert_eq!(m.step(Event::KillPass(KillOutcome::SignalFailed)), after(5, Action::ProbeWorld));
    assert_eq!(m.failed_passes, 3);
    assert_eq!(m.phase, Phase::Probing);
    assert_eq!(m.step(Event::KillPass(KillOutcome::Completed)), None);
}

#[test]
fn a_pass_that_completes_ends_the_killing_early() {
    let mut m = Recovery::new(false, false);
    m.step(Event::Started);
    m.step(Event::KillPass(KillOutcome::SignalFailed));
    assert_eq!(m.step(Event::KillPass(KillOutcome::Completed)), at_once(Action::ProbeWorld));
    assert_eq!(m.failed_passes, 1);
    assert_eq!(m.phase, Phase::Probing);
}

#[test]
fn absent_world_is_not_removed() {
    let mut m = Recovery::new(false, false);
    run(&mut m, &[Event::Started, Event::KillPass(KillOutcome::Completed)]);
    assert_eq!(m.step(Event::WorldProbed(false)), at_once(Action::Extract));
    assert_eq!(m.phase, Phase::Extracting);
}

#[test]
fn failed_removal_is_retried_after_a_pause() {
    let mut m = Recovery::new(false, false);
    run(&mut m, &[Event::Started, Event::KillPass(KillOutcome::Completed)]);
    for _ in 0..10 {
        assert_eq!(m.step(Event::WorldProbed(true)), at_once(Action::RemoveWorld));
        assert_eq!(m.phase, Phase::Removing);
        assert_eq!(m.step(Event::RemoveAttempted(false)), after(3, Action::ProbeWorld));
        assert_eq!(m.phase, Phase::Probing);
    }
    assert_eq!(m.step(Event::WorldProbed(true)), at_once(Action::RemoveWorld));
    assert_eq!(m.step(Event::RemoveAttempted(true)), at_once(Action::Extract));
}

#[test]
fn failed_extraction_is_fatal() {
    let mut m = Recovery::new(true, true);
    run(
        &mut m,
        &[
            Event::Started,
            Event::HookReturned,
            Event::KillPass(KillOutcome::Completed),
            Event::WorldProbed(false),
        ],
    );
    assert_eq!(m.step(Event::ArchiverExited(false)), at_once(Action::Fail));
    assert_eq!(m.phase, Phase::Failed);
    assert!(m.is_terminal());
    assert_eq!(m.step(Event::HookReturned), None);
}

#[test]
fn failed_spawn_is_fatal() {
    let mut m = Recovery::new(false, false);
    run(
        &mut m,
        &[
            Event::Started,
            Event::KillPass(KillOutcome::Completed),
            Event::WorldProbed(false),
            Event::ArchiverExited(true),
        ],
    );
    assert_eq!(m.step(Event::SpawnAttempted(false)), at_once(Action::Fail));
    assert_eq!(m.phase, Phase::Failed);
}

#[test]
fn unexpected_events_leave_the_state_alone() {
    let all = [
        Event::Started,
        Event::HookReturned,
        Event::KillPass(KillOutcome::Completed),
        Event::KillPass(KillOutcome::ListingFailed),
        Event::WorldProbed(true),
        Event::WorldProbed(false),
        Event::RemoveAttempted(true),
        Event::RemoveAttempted(false),
        Event::ArchiverExited(true),
        Event::ArchiverExited(false),
        Event::SpawnAttempted(true),
    ];
    let mut m = Recovery::new(true, false);
    for e in all {
        if e != Event::Started {
            let before = m;
            assert_eq!(m.step(e), None);
            assert_eq!(m, before);
        }
    }
    m.step(Event::Started);
    for e in all {
        if e != Event::HookReturned {
            let before = m;
            assert_eq!(m.step(e), None);
            assert_eq!(m, before);
        }
    }
}

#[test]
fn spawn_is_never_directed_before_the_world_was_seen_gone() {
    // Every run of up to seven events over a small alphabet: wherever the
    // spawn is directed, an earlier event showed the world absent and the
    // next one reported a successful extraction.
    let alphabet = [
        Event::Started,
        Event::HookReturned,
        Event::KillPass(KillOutcome::Completed),
        Event::KillPass(KillOutcome::SignalFailed),
        Event::WorldProbed(true),
        Event::WorldProbed(false),
        Event::RemoveAttempted(true),
        Event::RemoveAttempted(false),
        Event::ArchiverExited(true),
        Event::SpawnAttempted(true),
    ];
    let mut stack: Vec<(Recovery, Vec<Event>)> = vec![
        (Recovery::new(false, false), vec![]),
        (Recovery::new(true, false), vec![]),
        (Recovery::new(true, true), vec![]),
    ];
    let mut spawns = 0;
    while let Some((state, trace)) = stack.pop() {
        if trace.len() == 8 {
            continue;
        }
        for e in alphabet {
            let mut next = state;
            if let Some(d) = next.step(e) {
                let mut t = trace.clone();
                t.push(e);
                if d.action == Action::SpawnServer {
                    spawns += 1;
                    let ok = (0..t.len() - 1).any(|j| {
                        (t[j] == Event::WorldProbed(false) || t[j] == Event::RemoveAttempted(true))
                            && t[j + 1] == Event::ArchiverExited(true)
                    });
                    assert!(ok, "{:?}", t);
                }
                if d.action == Action::Extract {
                    let completed = t.iter().any(|x| *x == Event::KillPass(KillOutcome::Completed));
                    let failed = t
                        .iter()
                        .filter(|x| **x == Event::KillPass(KillOutcome::SignalFailed))
                        .count();
                    assert!(completed || failed == 3, "{:?}", t);
                }
                stack.push((next, t));
            }
        }
    }
    assert!(spawns > 0);
}
