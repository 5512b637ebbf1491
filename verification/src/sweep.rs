//! Which entries of the scratch root a sweep may delete.

use vstd::prelude::*;

use crate::names;
use crate::registry::Registry;

verus! {

/// How often, in seconds, the in-session sweep reclaims directories this process
/// owns but has lost track of. Independent of any idle sweep of connections on
/// purpose: disabling idle disconnects must not also disable disk reclamation.
pub const SWEEP_INTERVAL_SECS: u64 = 300;

/// A directory of this process that no launch of it claims.
pub open spec fn is_own_orphan(name: Seq<char>, claimed: Set<Seq<char>>, our_pid: u32) -> bool {
    names::owner_pid(name) == Some(our_pid) && !claimed.contains(name)
}

/// A directory of some other process.
pub open spec fn is_foreign(name: Seq<char>, our_pid: u32) -> bool {
    names::owner_pid(name) is Some && names::owner_pid(name)->0 != our_pid
}

/// Every own orphan of a listing is among the places in `orphans`.
pub open spec fn misses_no_orphan(
    entries: Seq<String>,
    claimed: Set<Seq<char>>,
    our_pid: u32,
    orphans: Seq<usize>,
) -> bool {
    forall|i: int|
        0 <= i < entries.len() && is_own_orphan(#[trigger] entries[i]@, claimed, our_pid)
            ==> exists|k: int| 0 <= k < orphans.len() && #[trigger] orphans[k] == i
}

/// Every foreign directory of a listing is among those in `foreign`.
pub open spec fn misses_no_foreign(
    entries: Seq<String>,
    our_pid: u32,
    foreign: Seq<ForeignDir>,
) -> bool {
    forall|i: int|
        0 <= i < entries.len() && is_foreign(#[trigger] entries[i]@, our_pid) ==> exists|k: int|
            0 <= k < foreign.len() && (#[trigger] foreign[k]).index == i
}

/// The scratch directories of THIS process that are no longer live, as positions
/// in the listing of the scratch root: a launch whose removal ladder was
/// exhausted, or one left by a previous process that held the same pid number.
///
/// Exact set arithmetic, no heuristic: a live launch is registered before its
/// directory exists, so it can never appear in the difference.
///
/// `entries` and `registry` are to be read under one lock; the deleting is done
/// after it is released.
pub fn sweep_own_orphans(registry: &Registry, entries: &Vec<String>, our_pid: u32) -> (orphans: Vec<
    usize,
>)
    ensures
        forall|k: int|
            0 <= k < orphans@.len() ==> (#[trigger] orphans@[k]) < entries@.len() && is_own_orphan(
                entries@[orphans@[k] as int]@,
                registry@,
                our_pid,
            ),
        forall|i: int|
            0 <= i < entries@.len() && is_own_orphan(#[trigger] entries@[i]@, registry@, our_pid)
                ==> orphans@.contains(i as usize),
        misses_no_orphan(entries@, registry@, our_pid, orphans@),
        forall|a: int, b: int| 0 <= a < b < orphans@.len() ==> orphans@[a] < orphans@[b],
{
    let mut orphans: Vec<usize> = Vec::new();
    for i in 0..entries.len()
        invariant
            forall|k: int|
                0 <= k < orphans@.len() ==> (#[trigger] orphans@[k]) < i && is_own_orphan(
                    entries@[orphans@[k] as int]@,
                    registry@,
                    our_pid,
                ),
            forall|j: int|
                0 <= j < i && is_own_orphan(#[trigger] entries@[j]@, registry@, our_pid)
                    ==> orphans@.contains(j as usize),
            forall|a: int, b: int| 0 <= a < b < orphans@.len() ==> orphans@[a] < orphans@[b],
    {
        let name = entries[i].as_str();
        let ours = match names::pid_from_dir_name(name) {
            Some(pid) => pid == our_pid,
            None => false,
        };
        if ours && !registry.is_registered(name) {
            let ghost before = orphans@;
            orphans.push(i);
            proof {
                assert(orphans@[before.len() as int] == i);
                assert forall|j: int|
                    0 <= j < i + 1 && is_own_orphan(#[trigger] entries@[j]@, registry@, our_pid)
                    implies orphans@.contains(j as usize) by {
                    if j < i {
                        let k = before.index_of(j as usize);
                        assert(orphans@[k] == j as usize);
                    }
                }
            }
        }
    }
    proof {
        assert forall|i: int|
            0 <= i < entries@.len() && is_own_orphan(#[trigger] entries@[i]@, registry@, our_pid)
            implies exists|k: int| 0 <= k < orphans@.len() && #[trigger] orphans@[k] == i by {
            let k = orphans@.index_of(i as usize);
            assert(orphans@[k] == i);
        }
    }
    orphans
}

/// A directory of another process: where it stands in the listing, and the pid
/// to ask about.
#[derive(Debug, Clone, Copy, PartialEq, Eq, Structural)]
pub struct ForeignDir {
    pub index: usize,
    pub pid: u32,
}

/// The scratch directories of OTHER processes, in the order of the listing. Each
/// may be deleted where a probe of its pid authorizes that, and not otherwise.
///
/// Our own pid is left to [`sweep_own_orphans`], which is the only one that can
/// tell a live launch from an orphan.
pub fn sweep_foreign_orphans(entries: &Vec<String>, our_pid: u32) -> (foreign: Vec<ForeignDir>)
    ensures
        forall|k: int|
            0 <= k < foreign@.len() ==> (#[trigger] foreign@[k]).index < entries@.len()
                && is_foreign(entries@[foreign@[k].index as int]@, our_pid) && names::owner_pid(
                entries@[foreign@[k].index as int]@,
            ) == Some(foreign@[k].pid),
        forall|i: int|
            0 <= i < entries@.len() && is_foreign(#[trigger] entries@[i]@, our_pid)
                ==> exists|k: int| 0 <= k < foreign@.len() && (#[trigger] foreign@[k]).index == i,
        misses_no_foreign(entries@, our_pid, foreign@),
        forall|a: int, b: int|
            0 <= a < b < foreign@.len() ==> (#[trigger] foreign@[a]).index < (
            #[trigger] foreign@[b]).index,
{
    let mut foreign: Vec<ForeignDir> = Vec::new();
    for i in 0..entries.len()
        invariant
            forall|k: int|
                0 <= k < foreign@.len() ==> (#[trigger] foreign@[k]).index < i && is_foreign(
                    entries@[foreign@[k].index as int]@,
                    our_pid,
                ) && names::owner_pid(entries@[foreign@[k].index as int]@) == Some(foreign@[k].pid),
            forall|j: int|
                0 <= j < i && is_foreign(#[trigger] entries@[j]@, our_pid) ==> exists|k: int|
                    0 <= k < foreign@.len() && (#[trigger] foreign@[k]).index == j,
            forall|a: int, b: int|
                0 <= a < b < foreign@.len() ==> (#[trigger] foreign@[a]).index < (
                #[trigger] foreign@[b]).index,
    {
        if let Some(pid) = names::pid_from_dir_name(entries[i].as_str()) {
            if pid != our_pid {
                let ghost before = foreign@;
                foreign.push(ForeignDir { index: i, pid });
                proof {
                    assert(foreign@[before.len() as int].index == i);
                    assert forall|j: int|
                        0 <= j < i + 1 && is_foreign(#[trigger] entries@[j]@, our_pid) implies exists|
                        k: int,
                    |
                        0 <= k < foreign@.len() && (#[trigger] foreign@[k]).index == j by {
                        if j < i {
                            let k = choose|k: int|
                                0 <= k < before.len() && (#[trigger] before[k]).index == j;
                            assert(foreign@[k].index == j);
                        }
                    }
                }
            }
        }
    }
    foreign
}

/// Where the in-session sweep stands.
#[derive(Debug, Clone, Copy, PartialEq, Eq, Structural)]
pub enum SweepStage {
    /// The first tick of an interval is immediate, and is skipped.
    BeforeFirstTick,
    /// Between two sweeps.
    Idle,
    /// In a sweep.
    Sweeping,
}

/// What the in-session sweep does next. It has no end.
#[derive(Debug, Clone, Copy, PartialEq, Eq, Structural)]
pub enum SweepAction {
    /// Wait for the next tick of an interval of [`SWEEP_INTERVAL_SECS`].
    AwaitTick,
    /// Run [`sweep_own_orphans`], delete what it gives, and wait until that is done.
    Sweep,
}

/// What came of an action.
#[derive(Debug, Clone, Copy, PartialEq, Eq, Structural)]
pub enum SweepEvent {
    Ticked,
    SweepEnded { panicked: bool },
}

pub open spec fn action_in(stage: SweepStage) -> SweepAction {
    match stage {
        SweepStage::Sweeping => SweepAction::Sweep,
        _ => SweepAction::AwaitTick,
    }
}

/// The stage after an event. One that the stage does not wait for changes nothing.
pub open spec fn stage_after(stage: SweepStage, event: SweepEvent) -> SweepStage {
    match (stage, event) {
        (SweepStage::BeforeFirstTick, SweepEvent::Ticked) => SweepStage::Idle,
        (SweepStage::Idle, SweepEvent::Ticked) => SweepStage::Sweeping,
        (SweepStage::Sweeping, SweepEvent::SweepEnded { .. }) => SweepStage::Idle,
        _ => stage,
    }
}

/// The in-session sweep: [`sweep_own_orphans`] on a fixed interval.
pub struct SweepTask {
    stage: SweepStage,
}

/// Starts the in-session sweep, which never ends.
pub fn scratch_sweep_task() -> (task: SweepTask)
    ensures
        task.stage() == SweepStage::BeforeFirstTick,
{
    SweepTask { stage: SweepStage::BeforeFirstTick }
}

impl SweepTask {
    pub closed spec fn stage(self) -> SweepStage {
        self.stage
    }

    /// What to do next.
    pub fn action(&self) -> (action: SweepAction)
        ensures
            action == action_in(self.stage()),
    {
        match self.stage {
            SweepStage::BeforeFirstTick => SweepAction::AwaitTick,
            SweepStage::Idle => SweepAction::AwaitTick,
            SweepStage::Sweeping => SweepAction::Sweep,
        }
    }

    /// Goes on from what came of the action.
    pub fn step(&mut self, event: SweepEvent)
        ensures
            final(self).stage() == stage_after(old(self).stage(), event),
    {
        self.stage = match (self.stage, event) {
            (SweepStage::BeforeFirstTick, SweepEvent::Ticked) => SweepStage::Idle,
            (SweepStage::Idle, SweepEvent::Ticked) => SweepStage::Sweeping,
            (SweepStage::Sweeping, SweepEvent::SweepEnded { .. }) => SweepStage::Idle,
            (stage, _) => stage,
        };
    }
}

/// The stage that some events lead to.
pub open spec fn stage_of(events: Seq<SweepEvent>) -> SweepStage
    decreases events.len(),
{
    if events.len() == 0 {
        SweepStage::BeforeFirstTick
    } else {
        stage_after(stage_of(events.drop_last()), events.last())
    }
}

/// The event is what the action waits for.
pub open spec fn answers(action: SweepAction, event: SweepEvent) -> bool {
    match action {
        SweepAction::AwaitTick => event is Ticked,
        SweepAction::Sweep => event is SweepEnded,
    }
}

/// The events of a task that does each action as it comes.
pub open spec fn is_run(events: Seq<SweepEvent>) -> bool
    decreases events.len(),
{
    events.len() > 0 ==> is_run(events.drop_last()) && answers(
        action_in(stage_of(events.drop_last())),
        events.last(),
    )
}

/// The last of the events is the one that starts a sweep.
pub open spec fn starts_sweep(events: Seq<SweepEvent>) -> bool {
    &&& events.len() > 0
    &&& stage_of(events.drop_last()) != SweepStage::Sweeping
    &&& stage_of(events) == SweepStage::Sweeping
}

/// How many ticks there were.
pub open spec fn ticks(events: Seq<SweepEvent>) -> nat
    decreases events.len(),
{
    if events.len() == 0 {
        0
    } else {
        ticks(events.drop_last()) + (if events.last() is Ticked {
            1nat
        } else {
            0
        })
    }
}

/// How many sweeps were started.
pub open spec fn sweeps_started(events: Seq<SweepEvent>) -> nat
    decreases events.len(),
{
    if events.len() == 0 {
        0
    } else {
        sweeps_started(events.drop_last()) + (if starts_sweep(events) {
            1nat
        } else {
            0
        })
    }
}

/// How many sweeps came to an end.
pub open spec fn sweeps_ended(events: Seq<SweepEvent>) -> nat
    decreases events.len(),
{
    if events.len() == 0 {
        0
    } else {
        sweeps_ended(events.drop_last()) + (if events.last() is SweepEnded {
            1nat
        } else {
            0
        })
    }
}

/// The first tick is skipped and every later one starts a sweep. Each sweep ends
/// before anything else is done, so that two never overlap.
pub proof fn law_every_later_tick_sweeps_alone(events: Seq<SweepEvent>)
    requires
        is_run(events),
    ensures
        stage_of(events) == SweepStage::BeforeFirstTick <==> ticks(events) == 0,
        sweeps_started(events) == (if ticks(events) == 0 {
            0
        } else {
            ticks(events) - 1
        }),
        sweeps_started(events) == sweeps_ended(events) + (if stage_of(events)
            == SweepStage::Sweeping {
            1nat
        } else {
            0
        }),
    decreases events.len(),
{
    if events.len() > 0 {
        law_every_later_tick_sweeps_alone(events.drop_last());
    }
}

/// The task goes on forever: whatever came before, what answers its action leads
/// to a next one. After a sweep, and be it one that panicked, that is to wait for
/// the next tick.
pub proof fn law_the_task_goes_on(events: Seq<SweepEvent>, event: SweepEvent)
    requires
        is_run(events),
        answers(action_in(stage_of(events)), event),
    ensures
        is_run(events.push(event)),
        stage_of(events.push(event)) != stage_of(events),
        event is SweepEnded ==> action_in(stage_of(events.push(event))) == SweepAction::AwaitTick,
        event is SweepEnded ==> stage_of(events.push(event)) == stage_of(
            events.push(SweepEvent::SweepEnded { panicked: false }),
        ),
{
    assert(events.push(event).drop_last() =~= events);
    let calm = events.push(SweepEvent::SweepEnded { panicked: false });
    assert(calm.drop_last() =~= events);
}

/// Where the ticks keep their interval, which is to say that after `n` of them the
/// next comes no sooner than `n` intervals from the start, the first sweep starts
/// no sooner than one interval from the start, the second no sooner than two, and
/// so on. `at` is the time of the last event.
pub proof fn law_sweeps_keep_their_interval(events: Seq<SweepEvent>, at: nat)
    requires
        is_run(events),
        starts_sweep(events),
        at >= ticks(events.drop_last()) * SWEEP_INTERVAL_SECS,
    ensures
        sweeps_started(events) >= 1,
        at >= sweeps_started(events) * SWEEP_INTERVAL_SECS,
{
    law_every_later_tick_sweeps_alone(events);
}

/// No directory is the business of both sweeps, and one whose name has not the
/// shape of a scratch directory's is the business of neither.
pub proof fn law_sweeps_share_nothing(name: Seq<char>, claimed: Set<Seq<char>>, our_pid: u32)
    ensures
        !(is_own_orphan(name, claimed, our_pid) && is_foreign(name, our_pid)),
        names::owner_pid(name) is None ==> !is_own_orphan(name, claimed, our_pid) && !is_foreign(
            name,
            our_pid,
        ),
{
}

/// A directory that a launch of this process claims is spared by both sweeps.
pub proof fn law_sweeps_spare_claimed_names(
    suffix: Seq<char>,
    claimed: Set<Seq<char>>,
    our_pid: u32,
)
    requires
        names::is_suffix(suffix),
        claimed.contains(names::dir_name_text(our_pid, suffix)),
    ensures
        !is_own_orphan(names::dir_name_text(our_pid, suffix), claimed, our_pid),
        !is_foreign(names::dir_name_text(our_pid, suffix), our_pid),
{
    names::law_dir_name_round_trips(our_pid, suffix);
}

/// A directory of this process whose name was given up is reclaimed by the next
/// own sweep.
pub proof fn law_given_up_names_are_reclaimed(
    suffix: Seq<char>,
    claimed: Set<Seq<char>>,
    our_pid: u32,
)
    requires
        names::is_suffix(suffix),
    ensures
        is_own_orphan(
            names::dir_name_text(our_pid, suffix),
            claimed.remove(names::dir_name_text(our_pid, suffix)),
            our_pid,
        ),
{
    names::law_dir_name_round_trips(our_pid, suffix);
}

/// The own sweep takes a place of the listing exactly when the name there carries
/// this process's pid and is not claimed. It takes the places in their order, each
/// once.
pub proof fn law_the_own_sweep_takes_all_that_is_ours_and_unclaimed(
    registry: &Registry,
    entries: &Vec<String>,
    our_pid: u32,
    orphans: Vec<usize>,
    i: int,
    claimed: bool,
)
    requires
        call_ensures(sweep_own_orphans, (registry, entries, our_pid), orphans),
        0 <= i < entries@.len(),
        exists|name: &str|
            name@ == entries@[i]@ && #[trigger] call_ensures(
                Registry::is_registered,
                (registry, name),
                claimed,
            ),
    ensures
        (exists|k: int| 0 <= k < orphans@.len() && #[trigger] orphans@[k] == i) <==> (
        names::owner_pid(entries@[i]@) == Some(our_pid) && !claimed),
        forall|k: int| 0 <= k < orphans@.len() ==> #[trigger] orphans@[k] < entries@.len(),
        forall|a: int, b: int| 0 <= a < b < orphans@.len() ==> orphans@[a] < orphans@[b],
{
    if names::owner_pid(entries@[i]@) == Some(our_pid) && !claimed {
        assert(is_own_orphan(entries@[i]@, registry@, our_pid));
    }
}

/// The foreign sweep gives a place of the listing exactly when the name there
/// carries a pid and that is not this process's, and gives that pid with it. It
/// gives the places in their order, each once.
pub proof fn law_the_foreign_sweep_gives_all_that_is_of_others(
    entries: &Vec<String>,
    our_pid: u32,
    foreign: Vec<ForeignDir>,
    i: int,
    pid: u32,
)
    requires
        call_ensures(sweep_foreign_orphans, (entries, our_pid), foreign),
        0 <= i < entries@.len(),
    ensures
        (exists|k: int|
            0 <= k < foreign@.len() && (#[trigger] foreign@[k]).index == i && foreign@[k].pid == pid)
            <==> (names::owner_pid(entries@[i]@) == Some(pid) && pid != our_pid),
        forall|k: int| 0 <= k < foreign@.len() ==> (#[trigger] foreign@[k]).index < entries@.len(),
        forall|a: int, b: int|
            0 <= a < b < foreign@.len() ==> (#[trigger] foreign@[a]).index < (
            #[trigger] foreign@[b]).index,
{
    if names::owner_pid(entries@[i]@) == Some(pid) && pid != our_pid {
        assert(is_foreign(entries@[i]@, our_pid));
        let k = choose|k: int| 0 <= k < foreign@.len() && (#[trigger] foreign@[k]).index == i;
        assert(foreign@[k].pid == pid);
    }
}

/// Whatever name carries a pid and is not claimed is the business of one sweep, and
/// of one only: of the own sweep where the pid is this process's, and of the foreign
/// sweep where it is any other.
pub proof fn law_every_orphan_has_its_sweep(
    name: Seq<char>,
    claimed: Set<Seq<char>>,
    our_pid: u32,
    pid: u32,
)
    requires
        names::owner_pid(name) == Some(pid),
        !claimed.contains(name),
    ensures
        is_own_orphan(name, claimed, our_pid) <==> pid == our_pid,
        is_foreign(name, our_pid) <==> pid != our_pid,
{
}

/// A task that starts waits for a tick, and after that for one more, which starts
/// the first sweep.
pub proof fn law_the_first_sweep_takes_two_ticks(
    task: &mut SweepTask,
    then: &mut SweepTask,
    first: SweepAction,
    second: SweepAction,
    third: SweepAction,
)
    requires
        call_ensures(scratch_sweep_task, (), *old(task)),
        call_ensures(SweepTask::action, (&*old(task),), first),
        call_ensures(SweepTask::step, (task, SweepEvent::Ticked), ()),
        call_ensures(SweepTask::action, (&*final(task),), second),
        *old(then) == *final(task),
        call_ensures(SweepTask::step, (then, SweepEvent::Ticked), ()),
        call_ensures(SweepTask::action, (&*final(then),), third),
    ensures
        first == SweepAction::AwaitTick,
        second == SweepAction::AwaitTick,
        third == SweepAction::Sweep,
{
}

/// A task in a sweep stays in it whatever ticks, until the sweep ends, well or in a
/// panic; it waits for a tick then, and that starts the next sweep.
pub proof fn law_each_sweep_is_followed_by_another(
    task: &mut SweepTask,
    now: SweepAction,
    panicked: bool,
    after: SweepAction,
    then: &mut SweepTask,
    next: SweepAction,
    early: &mut SweepTask,
    still: SweepAction,
)
    requires
        call_ensures(SweepTask::action, (&*old(task),), now),
        now == SweepAction::Sweep,
        call_ensures(SweepTask::step, (task, SweepEvent::SweepEnded { panicked }), ()),
        call_ensures(SweepTask::action, (&*final(task),), after),
        *old(then) == *final(task),
        call_ensures(SweepTask::step, (then, SweepEvent::Ticked), ()),
        call_ensures(SweepTask::action, (&*final(then),), next),
        *old(early) == *old(task),
        call_ensures(SweepTask::step, (early, SweepEvent::Ticked), ()),
        call_ensures(SweepTask::action, (&*final(early),), still),
    ensures
        after == SweepAction::AwaitTick,
        next == SweepAction::Sweep,
        still == SweepAction::Sweep,
{
}

/// The end of a sweep means nothing to a task that is in none.
pub proof fn law_a_sweep_ends_once(task: &mut SweepTask, now: SweepAction, panicked: bool)
    requires
        call_ensures(SweepTask::action, (&*old(task),), now),
        now == SweepAction::AwaitTick,
        call_ensures(SweepTask::step, (task, SweepEvent::SweepEnded { panicked }), ()),
    ensures
        final(task).stage() == old(task).stage(),
{
}

} // verus!
