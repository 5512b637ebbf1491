//! Creating a scratch directory for one launch, and handing it back.
//!
//! Three ordering rules make the sweeps sound without holding a lock across a
//! multi-gigabyte delete:
//!
//! 1. **Register before `mkdir`.** There is no instant at which a scratch
//!    directory exists on disk without already being in the registry.
//! 2. **Unregister only after the directory is gone** (or after the retry
//!    ladder gives up, at which point it is by definition no longer live).
//! 3. **Diff under the lock, delete outside it.** A sweep enumerates, diffs and
//!    claims under the lock, then releases it before deleting.

use std::path::PathBuf;

use vstd::prelude::*;

use crate::names;
use crate::paths;
use crate::registry::Registry;
use crate::removal;
use crate::removal::Removal;
use crate::settings;
use crate::text;

verus! {

/// How many names a launch tries before it goes without a scratch directory.
pub const CREATE_TRIES: u32 = 8;

/// A creation whose scratch root is still to be made.
pub struct RootPending {
    root: PathBuf,
    pid: u32,
}

/// A creation whose scratch root is there.
pub struct Creation {
    root: PathBuf,
    pid: u32,
    tries: u32,
}

/// A name that is registered for a directory which is still to be made.
pub struct Claim {
    name: String,
    path: PathBuf,
}

/// How making the directory of a claim came out.
#[derive(Debug, Clone, Copy, PartialEq, Eq, Structural)]
pub enum DirOutcome {
    Created,
    AlreadyExists,
    Failed,
}

/// What becomes of a claim.
pub enum Settled {
    /// The launch has its directory.
    Ready(LaunchScratch),
    /// The name was taken on disk: claim another.
    Retry,
    /// The launch goes without.
    Abandoned,
}

/// A scratch directory owned by one agent launch.
///
/// Deliberately not `Clone`: handing one directory back twice could unregister
/// a name a later launch had since been given, which is the one way the sweep's
/// set arithmetic could be made to delete a directory in use.
#[derive(Debug)]
pub struct LaunchScratch {
    name: String,
    path: PathBuf,
    /// Set by [`LaunchScratch::release`], to tell a deliberate handback from an
    /// unwind. Does not change WHAT is done, only whether it is reported as a
    /// bug.
    released: bool,
}

/// What the end of a handle brings.
pub struct Handback {
    /// The handle was dropped without release: a cancelled request, or a
    /// connection that never reported a reap. To be reported; the cleanup is the
    /// same.
    pub unreleased: bool,
    /// The cleanup.
    pub removal: Removal,
}

/// Starts to create a scratch directory for one launch of process `pid` under
/// `root`; `None` when isolation is off. `isolation` is the value of
/// [`settings::ISOLATION_ENV`].
///
/// `None`, here and further on, is a normal outcome, not an error: the caller
/// leaves the temp variables alone and the child uses the system temp directory.
/// A launch must never fail because a scratch directory could not be made, and
/// it WOULD fail if the variables were set to a path that does not exist.
pub fn create(isolation: Option<&str>, root: PathBuf, pid: u32) -> (pending: Option<RootPending>)
    ensures
        pending is Some <==> !(isolation is Some && settings::switches_isolation_off(isolation->0@)),
        pending matches Some(p) ==> p.root_dir() == root && p.owner() == pid,
{
    if !settings::isolation_enabled(isolation) {
        return None;
    }
    Some(RootPending { root, pid })
}

impl RootPending {
    pub closed spec fn root_dir(self) -> PathBuf {
        self.root
    }

    pub closed spec fn owner(self) -> u32 {
        self.pid
    }

    /// The directory to make, with its parents, unless it exists.
    pub fn root(&self) -> (root: &PathBuf)
        ensures
            *root == self.root_dir(),
    {
        &self.root
    }

    /// Goes on once the root was made; `None` where it could not be.
    pub fn root_made(self, made: bool) -> (creation: Option<Creation>)
        ensures
            creation is Some <==> made,
            creation matches Some(c) ==> c.root_dir() == self.root_dir() && c.owner()
                == self.owner() && c.tries_left() == CREATE_TRIES,
    {
        if made {
            Some(Creation { root: self.root, pid: self.pid, tries: CREATE_TRIES })
        } else {
            None
        }
    }
}

impl Creation {
    pub closed spec fn root_dir(self) -> PathBuf {
        self.root
    }

    pub closed spec fn owner(self) -> u32 {
        self.pid
    }

    pub closed spec fn tries_left(self) -> nat {
        self.tries as nat
    }

    /// Tries to claim `name`, which uses up a try. `None` where the name is
    /// claimed already, or no try is left.
    pub fn claim_name(&mut self, registry: &mut Registry, name: String) -> (claim: Option<Claim>)
        ensures
            final(self).root_dir() == old(self).root_dir(),
            final(self).owner() == old(self).owner(),
            final(self).tries_left() == (if old(self).tries_left() > 0 {
                (old(self).tries_left() - 1) as nat
            } else {
                0
            }),
            claim is Some <==> old(self).tries_left() > 0 && !old(registry)@.contains(name@),
            claim is None ==> final(registry)@ == old(registry)@,
            claim matches Some(c) ==> c.name_text() == name@ && final(registry)@ == old(
                registry,
            )@.insert(name@) && c.is_under(old(self).root_dir()),
            claim matches Some(c) ==> paths::os_bytes(c.dir()) == paths::joined(
                paths::os_bytes(old(self).root_dir()),
                name@,
            ),
    {
        if self.tries == 0 {
            return None;
        }
        self.tries = self.tries - 1;
        if !registry.register(name.as_str()) {
            assert(registry@ =~= old(registry)@);
            return None;
        }
        let path = paths::join(&self.root, name.as_str());
        proof {
            if paths::is_plain_name(name@) && !paths::is_verbatim(paths::os_bytes(self.root)) {
                paths::lemma_direct_child(
                    paths::os_bytes(self.root),
                    name@,
                    paths::os_bytes(path),
                );
            }
        }
        Some(Claim { name, path })
    }

    /// Draws as many names as there are tries left.
    pub fn draw(&self) -> (drawn: Vec<String>)
        ensures
            are_draws(names_of(drawn@), self.owner(), self.tries_left()),
    {
        let mut drawn: Vec<String> = Vec::new();
        while drawn.len() < self.tries as usize
            invariant
                drawn@.len() <= self.tries,
                forall|i: int|
                    0 <= i < drawn@.len() ==> names::is_minted_for(
                        #[trigger] names_of(drawn@)[i],
                        self.owner(),
                    ),
            decreases self.tries - drawn@.len(),
        {
            let name = names::new_dir_name(self.pid);
            let ghost before = drawn@;
            drawn.push(name);
            assert forall|i: int| 0 <= i < drawn@.len() implies names::is_minted_for(
                #[trigger] names_of(drawn@)[i],
                self.owner(),
            ) by {
                if i < before.len() {
                    assert(names_of(drawn@)[i] == names_of(before)[i]);
                }
            }
        }
        drawn
    }

    /// Claims the first of the `candidates` that is not claimed already. Each
    /// candidate that is looked at uses up a try; `None` where the candidates or
    /// the tries run out first.
    pub fn claim_first(&mut self, registry: &mut Registry, candidates: Vec<String>) -> (claim: Option<
        Claim,
    >)
        ensures
            is_first_claim(
                *old(self),
                old(registry)@,
                names_of(candidates@),
                claim,
                *final(self),
                final(registry)@,
            ),
    {
        let mut rest = candidates;
        let ghost all = names_of(candidates@);
        let ghost mut looked_at: int = 0;
        while rest.len() > 0 && self.tries > 0
            invariant
                all == names_of(candidates@),
                0 <= looked_at <= all.len(),
                looked_at <= old(self).tries_left(),
                names_of(rest@) == all.skip(looked_at),
                self.root_dir() == old(self).root_dir(),
                self.owner() == old(self).owner(),
                self.tries_left() == old(self).tries_left() - looked_at,
                registry@ == old(registry)@,
                forall|j: int| 0 <= j < looked_at ==> old(registry)@.contains(#[trigger] all[j]),
            decreases rest@.len(),
        {
            assert(names_of(rest@).len() == rest@.len());
            assert(names_of(rest@)[0] == all[looked_at]);
            let ghost before = rest@;
            let name = rest.remove(0);
            proof {
                assert(names_of(rest@) =~= names_of(before).skip(1));
                assert(all.skip(looked_at).skip(1) =~= all.skip(looked_at + 1));
            }
            let claim = self.claim_name(registry, name);
            if claim.is_some() {
                return claim;
            }
            proof {
                looked_at = looked_at + 1;
            }
        }
        assert(names_of(rest@).len() == rest@.len());
        None
    }

    /// Claims a fresh name, which is in the registry before its directory can
    /// exist on disk: the first of its draws that is not claimed already. `None`
    /// where no try is left that would find one.
    pub fn claim(&mut self, registry: &mut Registry) -> (claim: Option<Claim>)
        ensures
            exists|drawn: Seq<Seq<char>>| #[trigger]
                are_draws(drawn, old(self).owner(), old(self).tries_left()) && is_first_claim(
                    *old(self),
                    old(registry)@,
                    drawn,
                    claim,
                    *final(self),
                    final(registry)@,
                ),
            exists|drawn: Vec<String>| #[trigger]
                call_ensures(Creation::draw, (&*old(self),), drawn) && is_first_claim(
                    *old(self),
                    old(registry)@,
                    names_of(drawn@),
                    claim,
                    *final(self),
                    final(registry)@,
                ),
            match claim {
                Some(c) => {
                    &&& names::is_minted_for(c.name_text(), old(self).owner())
                    &&& !old(registry)@.contains(c.name_text())
                    &&& final(registry)@ == old(registry)@.insert(c.name_text())
                    &&& c.is_under(old(self).root_dir())
                    &&& final(self).tries_left() < old(self).tries_left()
                },
                None => final(registry)@ == old(registry)@ && final(self).tries_left() == 0,
            },
            old(self).tries_left() > 0 && (forall|name: Seq<char>|
                names::is_minted_for(name, old(self).owner()) ==> !old(registry)@.contains(name))
                ==> claim is Some && final(self).tries_left() == old(self).tries_left() - 1,
    {
        let drawn = self.draw();
        let ghost all = names_of(drawn@);
        let claim = self.claim_first(registry, drawn);
        proof {
            assert(are_draws(all, old(self).owner(), old(self).tries_left()));
            if old(self).tries_left() > 0 {
                assert(names::is_minted_for(all[0], old(self).owner()));
            }
        }
        claim
    }
}

/// The texts of some names.
pub open spec fn names_of(names: Seq<String>) -> Seq<Seq<char>> {
    names.map_values(|name: String| name@)
}

/// So many names that were minted for `pid`.
pub open spec fn are_draws(drawn: Seq<Seq<char>>, pid: u32, tries: nat) -> bool {
    &&& drawn.len() == tries
    &&& forall|i: int| 0 <= i < drawn.len() ==> names::is_minted_for(#[trigger] drawn[i], pid)
}

/// `claim` is what a creation makes of some candidates: a claim on the first that
/// is not among the `claimed` names, if there is one within its tries. It uses up
/// one try for each candidate up to there, and registers that name alone.
pub open spec fn is_first_claim(
    before: Creation,
    claimed: Set<Seq<char>>,
    candidates: Seq<Seq<char>>,
    claim: Option<Claim>,
    after: Creation,
    claimed_after: Set<Seq<char>>,
) -> bool {
    &&& after.root_dir() == before.root_dir()
    &&& after.owner() == before.owner()
    &&& match claim {
        Some(c) => exists|k: int|
            0 <= k < candidates.len() && k < before.tries_left() && (forall|j: int|
                0 <= j < k ==> claimed.contains(#[trigger] candidates[j])) && !claimed.contains(
                #[trigger] candidates[k],
            ) && c.name_text() == candidates[k] && c.is_under(before.root_dir())
                && after.tries_left() == before.tries_left() - k - 1 && claimed_after
                == claimed.insert(candidates[k]),
        None => {
            let looked_at = if candidates.len() < before.tries_left() {
                candidates.len() as int
            } else {
                before.tries_left() as int
            };
            &&& forall|j: int| 0 <= j < looked_at ==> claimed.contains(#[trigger] candidates[j])
            &&& after.tries_left() == before.tries_left() - looked_at
            &&& claimed_after == claimed
        },
    }
}

/// The registered names once a claim on `name` is settled.
pub open spec fn settled_names(
    claimed: Set<Seq<char>>,
    name: Seq<char>,
    outcome: DirOutcome,
) -> Set<Seq<char>> {
    match outcome {
        DirOutcome::Created => claimed,
        _ => claimed.remove(name),
    }
}

impl Claim {
    pub closed spec fn name_text(self) -> Seq<char> {
        self.name@
    }

    pub closed spec fn dir(self) -> PathBuf {
        self.path
    }

    /// The directory is the one of this name under `root`.
    pub open spec fn is_under(self, root: PathBuf) -> bool {
        paths::is_join(paths::os_bytes(root), self.name_text(), paths::os_bytes(self.dir()))
    }

    /// The directory to make, which must not exist yet.
    pub fn path(&self) -> (path: &PathBuf)
        ensures
            *path == self.dir(),
    {
        &self.path
    }

    /// Settles the claim once making the directory came out as `outcome`.
    pub fn settle(self, registry: &mut Registry, outcome: DirOutcome) -> (settled: Settled)
        ensures
            final(registry)@ == settled_names(old(registry)@, self.name_text(), outcome),
            match outcome {
                DirOutcome::Created => settled matches Settled::Ready(launch) && launch.name_text()
                    == self.name_text() && launch.dir() == self.dir() && !launch.is_released(),
                DirOutcome::AlreadyExists => settled == Settled::Retry,
                DirOutcome::Failed => settled == Settled::Abandoned,
            },
    {
        match outcome {
            DirOutcome::Created => {
                Settled::Ready(
                    LaunchScratch { name: self.name, path: self.path, released: false },
                )
            },
            DirOutcome::AlreadyExists => {
                registry.unregister(self.name.as_str());
                Settled::Retry
            },
            DirOutcome::Failed => {
                registry.unregister(self.name.as_str());
                Settled::Abandoned
            },
        }
    }
}

/// `after` is the handle `before`, released.
pub open spec fn is_release_of(before: LaunchScratch, after: LaunchScratch) -> bool {
    &&& after.is_released()
    &&& after.name_text() == before.name_text()
    &&& after.dir() == before.dir()
}

/// `handback` is what the end of `launch` brings: a removal of its directory
/// under its name, fresh, with retries only where there is a runtime to wait on.
pub open spec fn is_handback_of(launch: LaunchScratch, on_runtime: bool, handback: Handback) -> bool {
    &&& handback.unreleased == !launch.is_released()
    &&& handback.removal.name_text() == launch.name_text()
    &&& handback.removal.dir() == launch.dir()
    &&& handback.removal.failed_attempts() == 0
    &&& handback.removal.allowed_retries() == (if on_runtime {
        removal::REMOVE_RETRIES as nat
    } else {
        0
    })
}

impl LaunchScratch {
    pub closed spec fn name_text(self) -> Seq<char> {
        self.name@
    }

    pub closed spec fn dir(self) -> PathBuf {
        self.path
    }

    pub closed spec fn is_released(self) -> bool {
        self.released
    }

    /// The directory is the one of this name under `root`.
    pub open spec fn is_under(self, root: PathBuf) -> bool {
        paths::is_join(paths::os_bytes(root), self.name_text(), paths::os_bytes(self.dir()))
    }

    /// The directory.
    pub fn path(&self) -> (path: &PathBuf)
        ensures
            *path == self.dir(),
    {
        &self.path
    }

    /// Says that the process is reaped and now is the right time to give the
    /// directory back. The handle that is left goes to
    /// [`LaunchScratch::hand_back`] at once.
    pub fn release(self) -> (released: LaunchScratch)
        ensures
            is_release_of(self, released),
    {
        LaunchScratch { name: self.name, path: self.path, released: true }
    }

    /// The end of the handle, released or not. `on_runtime` says whether there is
    /// a runtime to retry on.
    pub fn hand_back(self, on_runtime: bool) -> (handback: Handback)
        ensures
            is_handback_of(self, on_runtime, handback),
    {
        Handback {
            unreleased: !self.released,
            removal: Removal::new(self.name, self.path, on_runtime),
        }
    }
}

/// A creation that gets no directory for a claim leaves the registry as it found
/// it; one that does leaves the name registered.
pub proof fn law_only_made_directories_stay_registered(
    claimed: Set<Seq<char>>,
    name: Seq<char>,
    outcome: DirOutcome,
)
    requires
        !claimed.contains(name),
    ensures
        outcome == DirOutcome::Created ==> settled_names(claimed.insert(name), name, outcome)
            == claimed.insert(name),
        outcome != DirOutcome::Created ==> settled_names(claimed.insert(name), name, outcome)
            == claimed,
{
    assert(claimed.insert(name).remove(name) =~= claimed);
}

/// A handle that is released and one that is merely dropped are cleaned up alike;
/// only the latter is reported.
pub proof fn law_release_changes_only_the_report(
    launch: LaunchScratch,
    released: LaunchScratch,
    on_runtime: bool,
    dropped: Handback,
    handed_back: Handback,
)
    requires
        !launch.is_released(),
        is_release_of(launch, released),
        is_handback_of(launch, on_runtime, dropped),
        is_handback_of(released, on_runtime, handed_back),
    ensures
        dropped.unreleased && !handed_back.unreleased,
        dropped.removal.name_text() == handed_back.removal.name_text(),
        dropped.removal.dir() == handed_back.removal.dir(),
        dropped.removal.allowed_retries() == handed_back.removal.allowed_retries(),
        dropped.removal.failed_attempts() == handed_back.removal.failed_attempts(),
{
}

/// A minted name is a plain one.
proof fn lemma_minted_names_are_plain(name: Seq<char>, pid: u32)
    requires
        names::is_minted_for(name, pid),
    ensures
        paths::is_plain_name(name),
{
    let suffix = choose|suffix: Seq<char>|
        names::is_suffix(suffix) && name == #[trigger] names::dir_name_text(pid, suffix);
    let number = text::decimal(pid as nat);
    text::lemma_decimal_value(pid as nat);
    assert forall|i: int| 0 <= i < name.len() implies paths::is_plain_char(#[trigger] name[i]) by {
        if i < number.len() {
            assert(text::is_digit(number[i]));
        } else if i > number.len() {
            assert(text::is_lower_hex_digit(suffix[i - number.len() - 1]));
        }
    }
}

/// A launch that is created while another lives has a directory of its own: both
/// names are registered, and both directories lie directly under the root, where
/// they are different. (Extending a verbatim Windows root normalizes it, so there
/// the root's bytes need not be a prefix.)
pub proof fn law_live_launches_have_different_directories(
    root: PathBuf,
    pid: u32,
    claimed: Set<Seq<char>>,
    live: LaunchScratch,
    created: LaunchScratch,
)
    requires
        names::is_minted_for(live.name_text(), pid),
        names::is_minted_for(created.name_text(), pid),
        live.is_under(root),
        created.is_under(root),
        claimed.contains(live.name_text()),
        !claimed.contains(created.name_text()),
    ensures
        live.name_text() != created.name_text(),
        paths::os_bytes(live.dir()) != paths::os_bytes(created.dir()),
        claimed.insert(created.name_text()).contains(live.name_text()),
        claimed.insert(created.name_text()).contains(created.name_text()),
        paths::ends_in_name(paths::os_bytes(live.dir()), live.name_text()),
        paths::ends_in_name(paths::os_bytes(created.dir()), created.name_text()),
        !paths::is_verbatim(paths::os_bytes(root)) ==> paths::is_direct_child(
            paths::os_bytes(root),
            live.name_text(),
            paths::os_bytes(live.dir()),
        ) && paths::is_direct_child(
            paths::os_bytes(root),
            created.name_text(),
            paths::os_bytes(created.dir()),
        ),
{
    lemma_minted_names_are_plain(live.name_text(), pid);
    lemma_minted_names_are_plain(created.name_text(), pid);
    if paths::os_bytes(live.dir()) == paths::os_bytes(created.dir()) {
        paths::lemma_last_component_tells_apart(
            paths::os_bytes(live.dir()),
            live.name_text(),
            created.name_text(),
        );
    }
}

/// A launch goes without a directory of its own exactly when the setting is the
/// one-character text `0`.
pub proof fn law_only_zero_goes_without(
    isolation: Option<&str>,
    root: PathBuf,
    pid: u32,
    pending: Option<RootPending>,
)
    requires
        call_ensures(create, (isolation, root, pid), pending),
    ensures
        pending is None <==> isolation is Some && isolation->0@.len() == 1 && isolation->0@[0]
            == '0',
{
    reveal_strlit("0");
    if isolation is Some && isolation->0@.len() == 1 && isolation->0@[0] == '0' {
        assert(isolation->0@ =~= "0"@);
    }
}

/// The root to be made is the root that was asked for. Once it is there the creation
/// is for that root and that process and has eight tries; where it could not be made
/// there is no creation.
pub proof fn law_a_creation_is_for_its_root_and_process(
    isolation: Option<&str>,
    root: PathBuf,
    pid: u32,
    pending: RootPending,
    shown: &PathBuf,
    made: bool,
    creation: Option<Creation>,
)
    requires
        call_ensures(create, (isolation, root, pid), Some(pending)),
        call_ensures(RootPending::root, (&pending,), shown),
        call_ensures(RootPending::root_made, (pending, made), creation),
    ensures
        *shown == root,
        creation is Some <==> made,
        creation matches Some(c) ==> c.root_dir() == root && c.owner() == pid && c.tries_left() == 8,
{
}

/// There is a draw for each try, and each is a name of the creation's process in the
/// form in which names are minted.
pub proof fn law_draws_are_names_of_the_process(creation: &Creation, drawn: Vec<String>, i: int)
    requires
        call_ensures(Creation::draw, (creation,), drawn),
        0 <= i < drawn@.len(),
    ensures
        drawn@.len() == creation.tries_left(),
        names::owner_pid(drawn@[i]@) == Some(creation.owner()),
        drawn@[i]@.len() >= 10,
        forall|j: int|
            drawn@[i]@.len() - 8 <= j < drawn@[i]@.len() ==> ('0' <= #[trigger] drawn@[i]@[j] <= '9'
                || 'a' <= drawn@[i]@[j] <= 'f'),
{
    assert(names_of(drawn@)[i] == drawn@[i]@);
    assert(names::is_minted_for(names_of(drawn@)[i], creation.owner()));
    names::law_minted_names_are_read_back(drawn@[i]@, creation.owner());
}

/// A name is claimed exactly when it is free and a try is left. Each attempt costs a
/// try while there are any, and leaves the creation's root and process as they are.
/// A claim adds its name to the registry and nothing else, and its directory is the
/// one that joining the name to the root gives; an attempt in vain adds nothing.
pub proof fn law_a_claim_is_on_its_name_under_the_root(
    creation: &mut Creation,
    registry: &mut Registry,
    name: String,
    claim: Option<Claim>,
)
    requires
        call_ensures(Creation::claim_name, (creation, registry, name), claim),
    ensures
        claim is Some <==> old(creation).tries_left() > 0 && !old(registry)@.contains(name@),
        old(creation).tries_left() > 0 ==> final(creation).tries_left() + 1 == old(
            creation,
        ).tries_left(),
        old(creation).tries_left() == 0 ==> final(creation).tries_left() == 0,
        final(creation).root_dir() == old(creation).root_dir(),
        final(creation).owner() == old(creation).owner(),
        claim is None ==> final(registry)@ == old(registry)@,
        claim matches Some(c) ==> final(registry)@ == old(registry)@.insert(name@) && c.name_text()
            == name@ && paths::os_bytes(c.dir()) == paths::joined(
            paths::os_bytes(old(creation).root_dir()),
            name@,
        ),
{
}

/// From the root to the directory of a launch: the directory to be made for a claim,
/// and the directory of the launch that comes of it, are the one that joining the
/// claimed name to the root gives. For a name of ASCII letters, digits and dashes
/// under a root that is not verbatim that is the root, at most one byte that
/// delimits, and the name.
pub proof fn law_launches_live_directly_under_the_root(
    isolation: Option<&str>,
    root: PathBuf,
    pid: u32,
    pending: RootPending,
    creation: &mut Creation,
    registry: &mut Registry,
    name: String,
    claim: Claim,
    claimed_at: &PathBuf,
    settling: &mut Registry,
    launch: LaunchScratch,
    launched_at: &PathBuf,
)
    requires
        call_ensures(create, (isolation, root, pid), Some(pending)),
        call_ensures(RootPending::root_made, (pending, true), Some(*old(creation))),
        call_ensures(Creation::claim_name, (creation, registry, name), Some(claim)),
        call_ensures(Claim::path, (&claim,), claimed_at),
        call_ensures(Claim::settle, (claim, settling, DirOutcome::Created), Settled::Ready(launch)),
        call_ensures(LaunchScratch::path, (&launch,), launched_at),
    ensures
        *launched_at == *claimed_at,
        paths::os_bytes(*launched_at) == paths::joined(paths::os_bytes(root), name@),
        launch.name_text() == name@,
        launch.is_under(root),
        ({
            let base = paths::os_bytes(root);
            let path = paths::os_bytes(*launched_at);
            let plain = name@.len() > 0 && forall|i: int|
                0 <= i < name@.len() ==> ('0' <= #[trigger] name@[i] <= '9' || 'a' <= name@[i]
                    <= 'z' || 'A' <= name@[i] <= 'Z' || name@[i] == '-');
            let verbatim = base.len() >= 4 && base[0] == 0x5c && base[1] == 0x5c && base[2] == 0x3f
                && base[3] == 0x5c;
            let start = path.len() - name@.len();
            plain && !verbatim ==> {
                &&& start == base.len() || start == base.len() + 1
                &&& path.take(base.len() as int) == base
                &&& start > 0 ==> path[start - 1] == 0x2f || path[start - 1] == 0x5c || path[start
                    - 1] == 0x3a
                &&& forall|i: int|
                    0 <= i < name@.len() ==> path[start + i] == #[trigger] name@[i] as u8
            }
        }),
{
    let base = paths::os_bytes(root);
    let path = paths::os_bytes(*launched_at);
    assert(path == paths::os_bytes(claim.dir()));
    assert(claim.is_under(root));
    let plain = name@.len() > 0 && forall|i: int|
        0 <= i < name@.len() ==> ('0' <= #[trigger] name@[i] <= '9' || 'a' <= name@[i] <= 'z' || 'A'
            <= name@[i] <= 'Z' || name@[i] == '-');
    if plain && !paths::is_verbatim(base) {
        assert(paths::is_plain_name(name@)) by {
            assert forall|i: int| 0 <= i < name@.len() implies paths::is_plain_char(
                #[trigger] name@[i],
            ) by {}
        }
        assert(paths::is_direct_child(base, name@, path));
        assert(path.take(base.len() as int) =~= base);
    }
}

/// Of some candidates the first that is free is claimed, if it comes within the tries
/// that are left; it and each that comes before it cost a try. Where there is none,
/// each of the candidates within the tries is taken, each costs a try, and nothing is
/// claimed.
pub proof fn law_the_first_free_candidate_is_claimed(
    creation: &mut Creation,
    registry: &mut Registry,
    candidates: Vec<String>,
    claim: Option<Claim>,
    k: int,
)
    requires
        call_ensures(Creation::claim_first, (creation, registry, candidates), claim),
        0 <= k <= candidates@.len(),
        k <= old(creation).tries_left(),
        forall|j: int| 0 <= j < k ==> old(registry)@.contains((#[trigger] candidates@[j])@),
        k < candidates@.len() && k < old(creation).tries_left() ==> !old(registry)@.contains(
            candidates@[k]@,
        ),
    ensures
        final(creation).root_dir() == old(creation).root_dir(),
        final(creation).owner() == old(creation).owner(),
        claim is Some <==> k < candidates@.len() && k < old(creation).tries_left(),
        claim matches Some(c) ==> c.name_text() == candidates@[k]@ && paths::os_bytes(c.dir())
            == paths::joined(paths::os_bytes(old(creation).root_dir()), candidates@[k]@)
            && final(registry)@ == old(registry)@.insert(candidates@[k]@)
            && final(creation).tries_left() == old(creation).tries_left() - k - 1,
        claim is None ==> final(registry)@ == old(registry)@ && final(creation).tries_left() == old(
            creation,
        ).tries_left() - k,
{
    let all = names_of(candidates@);
    assert(all.len() == candidates@.len());
    assert forall|j: int| 0 <= j < k implies old(registry)@.contains(#[trigger] all[j]) by {
        assert(all[j] == candidates@[j]@);
    }
    if k < candidates@.len() {
        assert(all[k] == candidates@[k]@);
    }
}

/// A creation that draws for itself claims a name of its own process that was free,
/// under its root, and adds it alone to the registry; it goes without only when it
/// has used up its tries.
pub proof fn law_a_creation_claims_a_free_name_of_its_process(
    creation: &mut Creation,
    registry: &mut Registry,
    claim: Option<Claim>,
)
    requires
        call_ensures(Creation::claim, (creation, registry), claim),
    ensures
        final(creation).root_dir() == old(creation).root_dir(),
        final(creation).owner() == old(creation).owner(),
        claim is None ==> final(registry)@ == old(registry)@ && final(creation).tries_left() == 0,
        claim matches Some(c) ==> {
            &&& !old(registry)@.contains(c.name_text())
            &&& final(registry)@ == old(registry)@.insert(c.name_text())
            &&& names::owner_pid(c.name_text()) == Some(old(creation).owner())
            &&& paths::os_bytes(c.dir()) == paths::joined(
                paths::os_bytes(old(creation).root_dir()),
                c.name_text(),
            )
            &&& final(creation).tries_left() < old(creation).tries_left()
        },
{
    if claim is Some {
        names::law_minted_names_are_read_back(claim->0.name_text(), old(creation).owner());
    }
}

/// A creation that draws for itself looks at all that it draws: it goes without only
/// when every one of its draws is taken, and else claims the first that is free,
/// having tried each that comes before it.
pub proof fn law_a_creation_tries_all_its_draws(
    creation: &mut Creation,
    registry: &mut Registry,
    claim: Option<Claim>,
)
    requires
        call_ensures(Creation::claim, (creation, registry), claim),
    ensures
        exists|drawn: Vec<String>| #[trigger]
            call_ensures(Creation::draw, (&*old(creation),), drawn) && (match claim {
                None => forall|i: int|
                    0 <= i < drawn@.len() ==> old(registry)@.contains((#[trigger] drawn@[i])@),
                Some(c) => exists|k: int|
                    0 <= k < drawn@.len() && (#[trigger] drawn@[k])@ == c.name_text() && (forall|
                        j: int,
                    |
                        0 <= j < k ==> old(registry)@.contains((#[trigger] drawn@[j])@))
                        && final(creation).tries_left() == old(creation).tries_left() - k - 1,
            }),
{
    let drawn = choose|drawn: Vec<String>| #[trigger]
        call_ensures(Creation::draw, (&*old(creation),), drawn) && is_first_claim(
            *old(creation),
            old(registry)@,
            names_of(drawn@),
            claim,
            *final(creation),
            final(registry)@,
        );
    let all = names_of(drawn@);
    assert(all.len() == drawn@.len());
    assert forall|i: int| 0 <= i < drawn@.len() implies all[i] == (#[trigger] drawn@[i])@ by {}
    if claim is Some {
        let c = claim->0;
        let claimed = old(registry)@;
        let k = choose|k: int|
            0 <= k < all.len() && k < old(creation).tries_left() && (forall|j: int|
                0 <= j < k ==> claimed.contains(#[trigger] all[j])) && !claimed.contains(
                #[trigger] all[k],
            ) && c.name_text() == all[k] && c.is_under(old(creation).root_dir())
                && final(creation).tries_left() == old(creation).tries_left() - k - 1 && (final(
                registry)@ == claimed.insert(all[k]));
        assert(drawn@[k]@ == c.name_text());
    }
}

/// A directory that was made makes a launch, under the name and at the place of the
/// claim, and leaves the registry as it is. One that was there already calls for
/// another try and one that could not be made for none; both give up the claim's name
/// and no other.
pub proof fn law_claims_are_settled_by_what_was_made(
    claim: Claim,
    registry: &mut Registry,
    outcome: DirOutcome,
    settled: Settled,
)
    requires
        call_ensures(Claim::settle, (claim, registry, outcome), settled),
    ensures
        outcome == DirOutcome::Created ==> final(registry)@ == old(registry)@ && (settled matches
            Settled::Ready(launch) && launch.name_text() == claim.name_text() && launch.dir()
            == claim.dir() && !launch.is_released()),
        outcome == DirOutcome::AlreadyExists ==> settled == Settled::Retry,
        outcome == DirOutcome::Failed ==> settled == Settled::Abandoned,
        outcome != DirOutcome::Created ==> final(registry)@ == old(registry)@.remove(
            claim.name_text(),
        ),
{
}

/// The whole life of a claim. Some name is claimed and its directory made; the launch
/// is released or merely dropped; its removal fails as often as there are `waits`, and
/// comes to an end with one attempt more. The name that is unregistered then is the
/// name that was claimed: it leaves the registry, and no other does. So if nothing
/// else was claimed or given up meanwhile, the registry is what it was before the
/// claim. The directory deleted is that of the launch, the end comes after six
/// attempts at the latest, or after one where there is no runtime, and only a launch
/// that was not released is reported.
pub proof fn law_the_name_claimed_is_the_name_given_up(
    creation: &mut Creation,
    claiming: &mut Registry,
    name: String,
    claim: Claim,
    settling: &mut Registry,
    launch: LaunchScratch,
    released: bool,
    handle: LaunchScratch,
    on_runtime: bool,
    handback: Handback,
    removals: Seq<Removal>,
    waits: Seq<u64>,
    removed: bool,
    given_up: String,
    gave_up: bool,
    attempts: u32,
    unregistering: &mut Registry,
    given_up_text: &str,
)
    requires
        call_ensures(Creation::claim_name, (creation, claiming, name), Some(claim)),
        call_ensures(Claim::settle, (claim, settling, DirOutcome::Created), Settled::Ready(launch)),
        released ==> call_ensures(LaunchScratch::release, (launch,), handle),
        !released ==> handle == launch,
        call_ensures(LaunchScratch::hand_back, (handle, on_runtime), handback),
        removals.len() == waits.len() + 1,
        removals[0] == handback.removal,
        forall|i: int|
            0 <= i < waits.len() ==> call_ensures(
                Removal::step,
                (removals[i], false),
                (removal::RemovalStep::Wait { millis: #[trigger] waits[i], removal: removals[i + 1] }),
            ),
        call_ensures(
            Removal::step,
            (removals[waits.len() as int], removed),
            (removal::RemovalStep::Unregister { name: given_up, gave_up, attempts }),
        ),
        given_up_text@ == given_up@,
        call_ensures(Registry::unregister, (unregistering, given_up_text), ()),
    ensures
        given_up@ == name@,
        final(unregistering)@ == old(unregistering)@.remove(name@),
        !final(unregistering)@.contains(name@),
        *old(settling) == *final(claiming) && *old(unregistering) == *final(settling)
            ==> final(unregistering)@ == old(claiming)@,
        handback.unreleased == !released,
        handback.removal.dir() == claim.dir(),
        removals[waits.len() as int].dir() == claim.dir(),
        gave_up == !removed,
        attempts == waits.len() + 1,
        removed || attempts == (if on_runtime {
            6int
        } else {
            1
        }),
{
    removal::law_a_ladder_ends_with_its_own_name(
        removals,
        waits,
        removed,
        removal::RemovalStep::Unregister { name: given_up, gave_up, attempts },
    );
    assert(!old(claiming)@.contains(name@));
    assert(old(claiming)@.insert(name@).remove(name@) =~= old(claiming)@);
}

} // verus!
