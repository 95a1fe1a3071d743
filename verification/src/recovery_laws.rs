//! What holds of every run of the recovery machine.
//!
//! A run is a sequence of events fed to the machine from its initial state.
//! The laws below speak of the directive that the machine returns at each
//! position of a run.

use vstd::prelude::*;
use crate::recovery::{Action, Directive, Event, KillOutcome, Phase, Recovery, MAX_KILL_PASSES};

verus! {

/// The state reached after `events`, or `None` where some event of the run
/// was not awaited.
pub open spec fn state_after(hook: bool, token: bool, events: Seq<Event>) -> Option<Recovery>
    decreases events.len(),
{
    if events.len() == 0 {
        Some(Recovery::initial(hook, token))
    } else {
        match state_after(hook, token, events.drop_last()) {
            Some(s) => match s.transition(events.last()) {
                Some((next, _)) => Some(next),
                None => None,
            },
            None => None,
        }
    }
}

/// The directive returned for the event at position `i`, where the run is
/// accepted up to and including that event.
pub open spec fn directive_at(hook: bool, token: bool, events: Seq<Event>, i: int) -> Option<
    Directive,
> {
    match state_after(hook, token, events.take(i)) {
        Some(s) => match s.transition(events[i]) {
            Some((_, directive)) => Some(directive),
            None => None,
        },
        None => None,
    }
}

/// Whether the machine directs `action` at position `i` of the run.
pub open spec fn directs(hook: bool, token: bool, events: Seq<Event>, i: int, action: Action) -> bool {
    0 <= i < events.len() && match directive_at(hook, token, events, i) {
        Some(directive) => directive.action == action,
        None => false,
    }
}

/// An event that shows the world directory to be absent.
pub open spec fn world_seen_gone(e: Event) -> bool {
    e == Event::WorldProbed(false) || e == Event::RemoveAttempted(true)
}

/// An event that reports a termination pass.
pub open spec fn is_kill_pass(e: Event) -> bool {
    e is KillPass
}

/// An event that reports a termination pass that did not complete.
pub open spec fn is_failed_pass(e: Event) -> bool {
    e is KillPass && e != Event::KillPass(KillOutcome::Completed)
}

/// The number of failed termination passes in a run.
pub open spec fn failed_passes_in(events: Seq<Event>) -> nat
    decreases events.len(),
{
    if events.len() == 0 {
        0
    } else {
        failed_passes_in(events.drop_last()) + if is_failed_pass(events.last()) {
            1nat
        } else {
            0nat
        }
    }
}

/// Position `j` of the run holds a completed termination pass.
pub open spec fn completed_at(events: Seq<Event>, j: int) -> bool {
    0 <= j < events.len() && events[j] == Event::KillPass(KillOutcome::Completed)
}

/// Position `j` of the run holds a termination pass that failed at signalling
/// a process it had observed.
pub open spec fn signal_failed_at(events: Seq<Event>, j: int) -> bool {
    0 <= j < events.len() && events[j] == Event::KillPass(KillOutcome::SignalFailed)
}

/// Position `j` of the run holds a termination pass.
pub open spec fn kill_pass_at(events: Seq<Event>, j: int) -> bool {
    0 <= j < events.len() && is_kill_pass(events[j])
}

/// Position `j` shows the world directory absent, and the event right after
/// it reports a successful exit of the archiver.
pub open spec fn erased_then_extracted_at(events: Seq<Event>, j: int) -> bool {
    0 <= j && j + 1 < events.len() && world_seen_gone(events[j]) && events[j + 1]
        == Event::ArchiverExited(true)
}

/// Some position before `n` holds a completed termination pass.
pub open spec fn completed_pass_before(events: Seq<Event>, n: int) -> bool {
    exists|j: int| j < n && #[trigger] completed_at(events, j)
}

/// The world directory was seen absent and the backup then extracted, both
/// before position `n`.
pub open spec fn erased_then_extracted_before(events: Seq<Event>, n: int) -> bool {
    exists|j: int| j + 1 < n && #[trigger] erased_then_extracted_at(events, j)
}

spec fn before_killing(p: Phase) -> bool {
    p == Phase::Init || p == Phase::HookStop
}

spec fn past_extract(p: Phase) -> bool {
    p == Phase::HookStart || p == Phase::Spawning || p == Phase::Done
}

spec fn completed_pass_is_last(events: Seq<Event>) -> bool {
    forall|j: int, k: int|
        j < k && #[trigger] completed_at(events, j) ==> !#[trigger] kill_pass_at(events, k)
}

spec fn kill_inv(events: Seq<Event>, s: Recovery) -> bool {
    let n = events.len() as int;
    &&& completed_pass_is_last(events)
    &&& before_killing(s.phase) ==> failed_passes_in(events) == 0 && s.failed_passes == 0
        && !completed_pass_before(events, n)
    &&& s.phase == Phase::Killing ==> failed_passes_in(events) == s.failed_passes
        && s.failed_passes < MAX_KILL_PASSES && !completed_pass_before(events, n)
    &&& !before_killing(s.phase) && s.phase != Phase::Killing ==> completed_pass_before(events, n)
        || failed_passes_in(events) == MAX_KILL_PASSES
}

spec fn erase_inv(events: Seq<Event>, s: Recovery) -> bool {
    let n = events.len() as int;
    &&& s.phase == Phase::Extracting ==> n > 0 && world_seen_gone(events.last())
    &&& past_extract(s.phase) ==> erased_then_extracted_before(events, n)
}

proof fn lemma_completed_extends(events: Seq<Event>)
    requires
        events.len() > 0,
    ensures
        completed_pass_before(events.drop_last(), events.len() - 1) ==> completed_pass_before(
            events,
            events.len() as int,
        ),
        completed_pass_before(events, events.len() as int) ==> completed_pass_before(
            events.drop_last(),
            events.len() - 1,
        ) || events.last() == Event::KillPass(KillOutcome::Completed),
        events.last() == Event::KillPass(KillOutcome::Completed) ==> completed_pass_before(
            events,
            events.len() as int,
        ),
{
    let prev = events.drop_last();
    let n = events.len() as int;
    if completed_pass_before(prev, n - 1) {
        let j = choose|j: int| j < n - 1 && #[trigger] completed_at(prev, j);
        assert(completed_at(events, j));
    }
    if completed_pass_before(events, n) {
        let j = choose|j: int| j < n && #[trigger] completed_at(events, j);
        if j < n - 1 {
            assert(completed_at(prev, j));
        }
    }
    if events.last() == Event::KillPass(KillOutcome::Completed) {
        assert(completed_at(events, n - 1));
    }
}

proof fn lemma_kill_inv(hook: bool, token: bool, events: Seq<Event>)
    ensures
        match state_after(hook, token, events) {
            Some(s) => kill_inv(events, s),
            None => true,
        },
    decreases events.len(),
{
    if events.len() > 0 {
        let prev = events.drop_last();
        let e = events.last();
        let n = events.len() as int;
        lemma_kill_inv(hook, token, prev);
        if let Some(s0) = state_after(hook, token, prev) {
            if let Some((s1, _)) = s0.transition(e) {
                assert(kill_inv(prev, s0));
                lemma_completed_extends(events);
                assert(completed_pass_is_last(events)) by {
                    assert forall|j: int, k: int|
                        j < k && #[trigger] completed_at(events, j) implies !#[trigger] kill_pass_at(
                            events,
                            k,
                        ) by {
                        if kill_pass_at(events, k) {
                            assert(completed_at(prev, j));
                            if k < n - 1 {
                                assert(kill_pass_at(prev, k));
                            } else {
                                assert(completed_pass_before(prev, n - 1));
                            }
                        }
                    }
                }
                assert(kill_inv(events, s1));
            }
        }
    } else {
        assert(!completed_pass_before(events, 0));
    }
}

proof fn lemma_erase_inv(hook: bool, token: bool, events: Seq<Event>)
    ensures
        match state_after(hook, token, events) {
            Some(s) => erase_inv(events, s),
            None => true,
        },
    decreases events.len(),
{
    if events.len() > 0 {
        let prev = events.drop_last();
        let e = events.last();
        let n = events.len() as int;
        lemma_erase_inv(hook, token, prev);
        if let Some(s0) = state_after(hook, token, prev) {
            if let Some((s1, _)) = s0.transition(e) {
                assert(erase_inv(prev, s0));
                if erased_then_extracted_before(prev, n - 1) {
                    let j = choose|j: int| j + 1 < n - 1 && #[trigger] erased_then_extracted_at(prev, j);
                    assert(erased_then_extracted_at(events, j));
                }
                if s0.phase == Phase::Extracting && e == Event::ArchiverExited(true) {
                    assert(prev.last() == events[n - 2]);
                    assert(erased_then_extracted_at(events, n - 2));
                }
                assert(erase_inv(events, s1));
            }
        }
    }
}

/// The rank of a stage in the order of a recovery. Looking for the world
/// directory and removing it share a rank, and so do the two ends.
pub open spec fn stage_rank(p: Phase) -> nat {
    match p {
        Phase::Init => 0,
        Phase::HookStop => 1,
        Phase::Killing => 2,
        Phase::Probing => 3,
        Phase::Removing => 3,
        Phase::Extracting => 4,
        Phase::HookStart => 5,
        Phase::Spawning => 6,
        Phase::Done => 7,
        Phase::Failed => 7,
    }
}

/// The state that follows `e`, where the stage awaits such an event.
pub open spec fn successor(s: Recovery, e: Event) -> Option<Recovery> {
    match s.transition(e) {
        Some((next, _)) => Some(next),
        None => None,
    }
}

/// A recovery never goes back: no transition leads to a stage of lower rank,
/// so stopping comes before erasing, erasing before extracting, extracting
/// before the start hook and the start hook before the spawn.
pub proof fn lemma_stages_only_advance(s: Recovery, e: Event)
    requires
        successor(s, e) is Some,
    ensures
        stage_rank(successor(s, e).unwrap().phase) >= stage_rank(s.phase),
        successor(s, e).unwrap().hook == s.hook,
        successor(s, e).unwrap().token == s.token,
{
}

/// Along a run the stage never goes back.
pub proof fn lemma_run_only_advances(hook: bool, token: bool, events: Seq<Event>, i: int)
    requires
        0 <= i <= events.len(),
        state_after(hook, token, events) is Some,
    ensures
        state_after(hook, token, events.take(i)) is Some,
        stage_rank(state_after(hook, token, events.take(i)).unwrap().phase) <= stage_rank(
            state_after(hook, token, events).unwrap().phase,
        ),
    decreases events.len() - i,
{
    if i == events.len() {
        assert(events.take(i) =~= events);
    } else {
        let prev = events.drop_last();
        assert(prev.take(i) =~= events.take(i));
        lemma_run_only_advances(hook, token, prev, i);
        lemma_stages_only_advance(state_after(hook, token, prev).unwrap(), events.last());
    }
}

/// A recovery that has ended takes no further event.
pub proof fn lemma_terminal_takes_nothing(s: Recovery, e: Event)
    requires
        s.terminal(),
    ensures
        s.transition(e) is None,
{
}

/// A world directory that is not there is not removed: the answer that it
/// is absent leads to the extraction at once, without a pause.
pub proof fn lemma_absent_world_is_not_removed(s: Recovery)
    requires
        s.phase == Phase::Probing,
    ensures
        s.transition(Event::WorldProbed(false)) == Some(
            (s.moved(Phase::Extracting), Directive { wait_secs: 0, action: Action::Extract }),
        ),
{
}

/// The removal is directed only in answer to a look that found the world
/// directory.
pub proof fn lemma_remove_only_what_was_seen(hook: bool, token: bool, events: Seq<Event>, i: int)
    requires
        directs(hook, token, events, i, Action::RemoveWorld),
    ensures
        events[i] == Event::WorldProbed(true),
{
}

/// The server is never started over the old world: wherever a run directs the
/// spawn, an earlier event showed the world directory absent and the event
/// right after it reported a successful extraction.
pub proof fn lemma_spawn_only_after_erase_and_extract(
    hook: bool,
    token: bool,
    events: Seq<Event>,
    i: int,
)
    requires
        directs(hook, token, events, i, Action::SpawnServer),
    ensures
        erased_then_extracted_before(events, i + 1),
{
    let upto = events.take(i);
    lemma_erase_inv(hook, token, upto);
    let s = state_after(hook, token, upto)->0;
    assert(erase_inv(upto, s));
    if s.phase == Phase::Extracting {
        assert(events[i] == Event::ArchiverExited(true));
        assert(upto.last() == events[i - 1]);
        assert(erased_then_extracted_at(events, i - 1));
    } else {
        assert(s.phase == Phase::HookStart);
        let j = choose|j: int| j + 1 < i && #[trigger] erased_then_extracted_at(upto, j);
        assert(upto[j] == events[j] && upto[j + 1] == events[j + 1]);
        assert(erased_then_extracted_at(events, j));
    }
}

/// Extraction waits for the termination stage to end: wherever a run directs
/// the extraction, a termination pass has completed before, or the full
/// number of passes has failed.
pub proof fn lemma_extract_only_after_kill_stage(
    hook: bool,
    token: bool,
    events: Seq<Event>,
    i: int,
)
    requires
        directs(hook, token, events, i, Action::Extract),
    ensures
        completed_pass_before(events, i) || failed_passes_in(events.take(i)) == MAX_KILL_PASSES,
{
    let upto = events.take(i);
    lemma_kill_inv(hook, token, upto);
    let s = state_after(hook, token, upto)->0;
    assert(kill_inv(upto, s));
    if completed_pass_before(upto, i) {
        let j = choose|j: int| j < i && #[trigger] completed_at(upto, j);
        assert(upto[j] == events[j]);
        assert(completed_at(events, j));
    }
}

/// Whether some completed pass lies strictly between positions `j` and `i`.
pub open spec fn completed_between(events: Seq<Event>, j: int, i: int) -> bool {
    exists|k: int| j < k < i && #[trigger] completed_at(events, k)
}

/// Extraction is never directed while a process that an enumeration showed
/// is left unsignalled, in every run in which some termination pass
/// completed or none failed at signalling: each pass that failed at
/// signalling is followed, before the extraction, by a pass that completed.
pub proof fn lemma_no_extract_over_observed_process(
    hook: bool,
    token: bool,
    events: Seq<Event>,
    i: int,
)
    requires
        directs(hook, token, events, i, Action::Extract),
        completed_pass_before(events, i) || forall|k: int|
            k < i ==> !#[trigger] signal_failed_at(events, k),
    ensures
        forall|j: int|
            j < i && #[trigger] signal_failed_at(events, j) ==> completed_between(events, j, i),
{
    let upto = events.take(i);
    lemma_kill_inv(hook, token, upto);
    let s = state_after(hook, token, upto)->0;
    assert(kill_inv(upto, s));
    assert forall|j: int| j < i && #[trigger] signal_failed_at(events, j) implies completed_between(
        events,
        j,
        i,
    ) by {
        assert(completed_pass_before(events, i));
        let c = choose|c: int| c < i && #[trigger] completed_at(events, c);
        assert(upto[c] == events[c]);
        assert(upto[j] == events[j]);
        assert(completed_at(upto, c));
        assert(kill_pass_at(upto, j));
        assert(j < c);
    }
}

} // verus!
