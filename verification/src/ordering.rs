//! Why a sweep never deletes the directory of a live launch.
//!
//! The registry, the disk and the sweeps of one process as a transition system.
//! Each event is what one call of this library, or the deletion that follows it,
//! does to the whole; events of different launches and of any number of sweeps
//! interleave freely.

use vstd::prelude::*;

use crate::launch;
use crate::names;
use crate::sweep;

verus! {

/// The state of one process and its scratch root.
pub struct World {
    /// The names in the registry.
    pub claimed: Set<Seq<char>>,
    /// What is in the scratch root.
    pub disk: Set<Seq<char>>,
    /// The directories of launches: made, and not yet handed back.
    pub live: Set<Seq<char>>,
    /// What some sweep has found to be orphans and not come to yet.
    pub doomed: Set<Seq<char>>,
}

pub enum Event {
    /// A creation claims a name.
    Claim { name: Seq<char> },
    /// A creation has tried to make the directory of its claim.
    Settle { name: Seq<char>, outcome: launch::DirOutcome },
    /// A removal ladder deletes the directory of its launch.
    Delete { name: Seq<char> },
    /// A removal ladder hands the name of its launch back.
    Unregister { name: Seq<char> },
    /// An own sweep reads the disk and the registry under the lock.
    Snapshot,
    /// An own sweep comes to a directory that it found, and deletes it or fails
    /// to. `again` says that another sweep found it too and has yet to come to it.
    Reclaim { name: Seq<char>, gone: bool, again: bool },
    /// Something appears in the scratch root, or vanishes, that is not this
    /// process's.
    Other { name: Seq<char>, present: bool },
}

/// What an event does, as a relation between the states before and after it.
pub open spec fn happens(pid: u32, before: World, event: Event, after: World) -> bool {
    match event {
        Event::Claim { name } => {
            &&& names::is_minted_for(name, pid)
            &&& !before.claimed.contains(name)
            &&& after == World { claimed: before.claimed.insert(name), ..before }
        },
        Event::Settle { name, outcome } => {
            &&& before.claimed.contains(name)
            &&& !before.live.contains(name)
            &&& match outcome {
                launch::DirOutcome::Created => {
                    &&& !before.disk.contains(name)
                    &&& after.disk == before.disk.insert(name)
                    &&& after.live == before.live.insert(name)
                },
                _ => after.disk == before.disk && after.live == before.live,
            }
            &&& after.claimed == launch::settled_names(before.claimed, name, outcome)
            &&& after.doomed == before.doomed
        },
        Event::Delete { name } => {
            &&& before.live.contains(name)
            &&& after == World { disk: before.disk.remove(name), ..before }
        },
        Event::Unregister { name } => {
            &&& before.live.contains(name)
            &&& after == World {
                claimed: before.claimed.remove(name),
                live: before.live.remove(name),
                ..before
            }
        },
        Event::Snapshot => after == World {
            doomed: before.doomed.union(
                before.disk.filter(
                    |name: Seq<char>| sweep::is_own_orphan(name, before.claimed, pid),
                ),
            ),
            ..before
        },
        Event::Reclaim { name, gone, again } => {
            &&& before.doomed.contains(name)
            &&& after == World {
                doomed: if again {
                    before.doomed
                } else {
                    before.doomed.remove(name)
                },
                disk: if gone {
                    before.disk.remove(name)
                } else {
                    before.disk
                },
                ..before
            }
        },
        Event::Other { name, present } => {
            &&& names::owner_pid(name) != Some(pid)
            &&& after == World {
                disk: if present {
                    before.disk.insert(name)
                } else {
                    before.disk.remove(name)
                },
                ..before
            }
        },
    }
}

/// No directory is made under a name that a sweep is about to delete. Fresh names
/// see to it, and so does sweeping once at a time: see
/// [`law_fresh_names_meet_no_sweep`] and [`law_a_lone_sweep_meets_no_new_directory`].
pub open spec fn meets_no_sweep(before: World, event: Event) -> bool {
    event matches Event::Settle { name, outcome } ==> outcome == launch::DirOutcome::Created
        ==> !before.doomed.contains(name)
}

/// A name that is claimed is none that a sweep is about to delete.
pub open spec fn is_fresh(before: World, event: Event) -> bool {
    event matches Event::Claim { name } ==> !before.doomed.contains(name)
}

/// A sweep starts only when the one before it has come to all that it found.
pub open spec fn sweeps_alone(before: World, event: Event) -> bool {
    match event {
        Event::Snapshot => before.doomed == Set::<Seq<char>>::empty(),
        Event::Reclaim { again, .. } => !again,
        _ => true,
    }
}

/// The state a process starts in: whatever is on disk, nothing of it is its own
/// doing.
pub open spec fn starts(world: World) -> bool {
    &&& world.claimed == Set::<Seq<char>>::empty()
    &&& world.live == Set::<Seq<char>>::empty()
    &&& world.doomed == Set::<Seq<char>>::empty()
}

/// What holds at every moment: a live launch is registered, under a name that
/// carries this process's pid; and what a sweep is about to delete is this
/// process's own, and no live launch's.
pub open spec fn is_sound(pid: u32, world: World) -> bool {
    &&& world.live.subset_of(world.claimed)
    &&& forall|name: Seq<char>| #[trigger]
        world.claimed.contains(name) ==> names::owner_pid(name) == Some(pid)
    &&& world.doomed.disjoint(world.live)
    &&& forall|name: Seq<char>| #[trigger]
        world.doomed.contains(name) ==> names::owner_pid(name) == Some(pid)
}

/// A process starts out sound.
pub proof fn law_every_start_is_sound(pid: u32, world: World)
    requires
        starts(world),
    ensures
        is_sound(pid, world),
{
}

/// Whatever happens, in whatever order, keeps it so, with as many sweeps at a time
/// as there may be.
pub proof fn law_every_event_keeps_it_sound(pid: u32, before: World, event: Event, after: World)
    requires
        is_sound(pid, before),
        happens(pid, before, event, after),
        meets_no_sweep(before, event),
    ensures
        is_sound(pid, after),
{
    if let Event::Claim { name } = event {
        let suffix = choose|suffix: Seq<char>|
            names::is_suffix(suffix) && name == #[trigger] names::dir_name_text(pid, suffix);
        names::law_dir_name_round_trips(pid, suffix);
    }
}

/// Hence the directory of a live launch stays where it is until the launch's own
/// removal deletes it: no sweep does, and no other launch.
pub proof fn law_live_launches_keep_their_directory(
    pid: u32,
    before: World,
    event: Event,
    after: World,
    name: Seq<char>,
)
    requires
        is_sound(pid, before),
        happens(pid, before, event, after),
        before.live.contains(name),
        before.disk.contains(name),
        event != (Event::Delete { name }),
    ensures
        after.disk.contains(name),
{
}

/// Where every claim is of a fresh name, no directory is made under a name that a
/// sweep is about to delete, however the sweeps overlap: what is claimed and what
/// is to be deleted stay apart.
pub proof fn law_fresh_names_meet_no_sweep(pid: u32, before: World, event: Event, after: World)
    requires
        before.claimed.disjoint(before.doomed),
        happens(pid, before, event, after),
        is_fresh(before, event),
    ensures
        meets_no_sweep(before, event),
        after.claimed.disjoint(after.doomed),
{
}

/// Where sweeps come one at a time, names need not even be fresh: what a sweep is
/// about to delete is still there, and a directory is only made where there is
/// none.
pub proof fn law_a_lone_sweep_meets_no_new_directory(
    pid: u32,
    before: World,
    event: Event,
    after: World,
)
    requires
        is_sound(pid, before),
        before.doomed.subset_of(before.disk),
        happens(pid, before, event, after),
        sweeps_alone(before, event),
    ensures
        meets_no_sweep(before, event),
        after.doomed.subset_of(after.disk),
{
}

} // verus!
