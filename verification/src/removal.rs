//! Getting rid of a scratch directory.
//!
//! Two small machines: the ladder of attempts that a launch leaves behind, and
//! the deletion that each attempt makes. They take what the file system answered
//! and say what is to be done next; neither touches the disk.

use std::path::PathBuf;

use vstd::prelude::*;

verus! {

/// How many times removal is retried before the directory is left to the
/// sweeps. Ending a process tree signals it without waiting for it, so the first
/// attempt can land while a descendant still holds an extracted file open; on
/// Windows that is a sharing violation, not a transient blip, and it clears only
/// once the descendant actually dies.
pub const REMOVE_RETRIES: u32 = 5;

/// Delay before the first retry, in milliseconds. Doubles each attempt, so the
/// ladder spans roughly a minute in total: comfortably longer than a process
/// tree takes to finish dying, and bounded so that a directory can never pin a
/// task forever.
pub const REMOVE_RETRY_BASE_MS: u64 = 2_000;

/// The delay before the retry after `failures` failed attempts and as many
/// waits.
pub open spec fn retry_delay(failures: nat) -> nat
    decreases failures,
{
    if failures == 0 {
        REMOVE_RETRY_BASE_MS as nat
    } else {
        2 * retry_delay((failures - 1) as nat)
    }
}

/// All delays of a ladder that allows `retries` retries, when every attempt
/// fails.
pub open spec fn total_delay(retries: nat) -> nat
    decreases retries,
{
    if retries == 0 {
        0
    } else {
        total_delay((retries - 1) as nat) + retry_delay((retries - 1) as nat)
    }
}

/// Whether an attempt is the last: it succeeded, or no retry is left.
pub open spec fn is_last_attempt(failures: nat, retries: nat, removed: bool) -> bool {
    removed || failures == retries
}

/// How a ladder ends that has seen `failures` failed attempts, when its further
/// attempts turn out as `outcomes` says: after how many attempts in all, and
/// whether it gave up. `None` where the outcomes run out first.
pub open spec fn ladder_end(failures: nat, retries: nat, outcomes: Seq<bool>) -> Option<
    (nat, bool),
>
    decreases outcomes.len(),
{
    if outcomes.len() == 0 {
        None
    } else if is_last_attempt(failures, retries, outcomes[0]) {
        Some((failures + 1, !outcomes[0]))
    } else {
        ladder_end(failures + 1, retries, outcomes.skip(1))
    }
}

/// One scratch directory on its way out.
pub struct Removal {
    name: String,
    path: PathBuf,
    retries: u32,
    failures: u32,
    delay_ms: u64,
}

/// What comes after an attempt to remove the directory.
pub enum RemovalStep {
    /// The name is to be unregistered, and that is the end of it. Where
    /// `gave_up`, the directory is still there after `attempts` attempts and is
    /// left for the sweep.
    Unregister { name: String, gave_up: bool, attempts: u32 },
    /// Try again after so many milliseconds.
    Wait { millis: u64, removal: Removal },
}

impl Removal {
    /// The registered name of the directory.
    pub closed spec fn name_text(self) -> Seq<char> {
        self.name@
    }

    pub closed spec fn dir(self) -> PathBuf {
        self.path
    }

    /// How many retries this ladder allows in all.
    pub closed spec fn allowed_retries(self) -> nat {
        self.retries as nat
    }

    /// How many attempts have failed so far.
    pub closed spec fn failed_attempts(self) -> nat {
        self.failures as nat
    }

    #[verifier::type_invariant]
    spec fn well_formed(self) -> bool {
        &&& self.failures <= self.retries <= REMOVE_RETRIES
        &&& self.delay_ms == retry_delay(self.failures as nat)
    }

    /// The ladder for a directory whose launch is over. Without a runtime there
    /// is nothing to wait on, so there is one attempt and no retry.
    pub(crate) fn new(name: String, path: PathBuf, on_runtime: bool) -> (removal: Removal)
        ensures
            removal.name_text() == name@,
            removal.dir() == path,
            removal.allowed_retries() == (if on_runtime {
                REMOVE_RETRIES as nat
            } else {
                0
            }),
            removal.failed_attempts() == 0,
    {
        let retries: u32 = if on_runtime {
            REMOVE_RETRIES
        } else {
            0
        };
        Removal { name, path, retries, failures: 0, delay_ms: REMOVE_RETRY_BASE_MS }
    }

    /// The directory to remove.
    pub fn path(&self) -> (path: &PathBuf)
        ensures
            *path == self.dir(),
    {
        &self.path
    }

    /// What to do once an attempt has succeeded (`removed`) or failed.
    ///
    /// The name is given up even though the directory survives the last attempt:
    /// the launch is over, so holding it in the registry would only hide the
    /// directory from the sweep that is now its best chance.
    pub fn step(self, removed: bool) -> (step: RemovalStep)
        ensures
            is_last_attempt(self.failed_attempts(), self.allowed_retries(), removed) ==> (step matches
                RemovalStep::Unregister { name, gave_up, attempts } && name@ == self.name_text()
                && gave_up == !removed && attempts == self.failed_attempts() + 1),
            !is_last_attempt(self.failed_attempts(), self.allowed_retries(), removed) ==> (step matches
                RemovalStep::Wait { millis, removal } && millis == retry_delay(
                self.failed_attempts(),
            ) && removal.name_text() == self.name_text() && removal.dir() == self.dir()
                && removal.allowed_retries() == self.allowed_retries()
                && removal.failed_attempts() == self.failed_attempts() + 1),
    {
        proof {
            use_type_invariant(&self);
        }
        let attempts: u32 = self.failures + 1;
        if removed || self.failures == self.retries {
            return RemovalStep::Unregister { name: self.name, gave_up: !removed, attempts };
        }
        let millis: u64 = self.delay_ms;
        proof {
            lemma_retry_delay(self.failures as nat);
            assert(retry_delay(attempts as nat) == 2 * millis);
        }
        let removal = Removal {
            name: self.name,
            path: self.path,
            retries: self.retries,
            failures: attempts,
            delay_ms: millis * 2,
        };
        RemovalStep::Wait { millis, removal }
    }
}

proof fn lemma_retry_delay(failures: nat)
    requires
        failures < REMOVE_RETRIES,
    ensures
        retry_delay(failures) <= 64_000,
{
    reveal_with_fuel(retry_delay, 6);
}

/// Every removal ends, after one attempt more than it allows retries at the
/// latest, and it gives up exactly when all of these fail.
pub proof fn law_every_removal_ends(failures: nat, retries: nat, outcomes: Seq<bool>)
    requires
        failures <= retries,
        outcomes.len() > retries - failures,
    ensures
        ladder_end(failures, retries, outcomes) matches Some((attempts, gave_up)) && failures
            < attempts <= retries + 1 && gave_up == (forall|i: int|
            0 <= i <= retries - failures ==> !(#[trigger] outcomes[i])),
    decreases outcomes.len(),
{
    if is_last_attempt(failures, retries, outcomes[0]) {
        if outcomes[0] {
            assert(0 <= 0 <= retries - failures);
        }
    } else {
        let rest = outcomes.skip(1);
        law_every_removal_ends(failures + 1, retries, rest);
        let all = forall|i: int| 0 <= i <= retries - failures ==> !(#[trigger] outcomes[i]);
        let tail = forall|i: int| 0 <= i <= retries - failures - 1 ==> !(#[trigger] rest[i]);
        if all {
            assert forall|i: int| 0 <= i <= retries - failures - 1 implies !(#[trigger] rest[i]) by {
                assert(rest[i] == outcomes[i + 1]);
            }
        }
        if tail {
            assert forall|i: int| 0 <= i <= retries - failures implies !(#[trigger] outcomes[i]) by {
                if i > 0 {
                    assert(rest[i - 1] == outcomes[i]);
                }
            }
        }
    }
}

/// Without retries the name is handed back after one attempt, whatever came of
/// it.
pub proof fn law_one_attempt_without_retries(removed: bool)
    ensures
        ladder_end(0, 0, seq![removed]) == Some((1nat, !removed)),
{
}

/// The waits double, so together they fall short of the next one by the first;
/// a full ladder waits for about a minute in all.
pub proof fn law_ladder_spans_about_a_minute(retries: nat)
    ensures
        total_delay(retries) + REMOVE_RETRY_BASE_MS == retry_delay(retries),
        total_delay(REMOVE_RETRIES as nat) == 62_000,
    decreases retries,
{
    if retries > 0 {
        law_ladder_spans_about_a_minute((retries - 1) as nat);
    }
    reveal_with_fuel(total_delay, 6);
    reveal_with_fuel(retry_delay, 6);
}

/// How an attempt to delete a whole directory came out.
pub enum DeleteOutcome<E> {
    Removed,
    /// There was no such directory.
    Missing,
    Failed(E),
}

/// What comes next in a removal that recovers from read-only children.
pub enum RobustStep<E> {
    /// The removal is over.
    Done(Result<(), E>),
    /// Clear the read-only attributes below the directory, keeping the error at
    /// hand.
    ClearReadonly(E),
    /// Delete once more.
    DeleteAgain,
}

/// What follows the first deletion.
pub open spec fn step_after_first<E>(first: DeleteOutcome<E>) -> RobustStep<E> {
    match first {
        DeleteOutcome::Failed(e) => RobustStep::ClearReadonly(e),
        _ => RobustStep::Done(Ok(())),
    }
}

/// What follows the recovery pass, from the error that made it necessary.
pub open spec fn step_after_clearing<E>(first: E, cleared: bool) -> RobustStep<E> {
    if cleared {
        RobustStep::DeleteAgain
    } else {
        RobustStep::Done(Err(first))
    }
}

/// What the second deletion makes of the removal.
pub open spec fn result_of_second<E>(second: DeleteOutcome<E>) -> Result<(), E> {
    match second {
        DeleteOutcome::Failed(e) => Err(e),
        _ => Ok(()),
    }
}

/// Deleting a directory, plus one recovery pass for read-only children: what
/// follows the first deletion. A directory that is not there counts as deleted.
///
/// Windows refuses to delete a file carrying `FILE_ATTRIBUTE_READONLY`, and
/// read-only extracted payloads are not hypothetical. On Unix the attribute is
/// irrelevant to deletion (write permission on the parent is what matters), so
/// the first deletion of read-only children already succeeds there, and a pass
/// that some other error brings about is a no-op.
pub fn remove_dir_robust<E>(first: DeleteOutcome<E>) -> (step: RobustStep<E>)
    ensures
        step == step_after_first(first),
{
    match first {
        DeleteOutcome::Removed => RobustStep::Done(Ok(())),
        DeleteOutcome::Missing => RobustStep::Done(Ok(())),
        DeleteOutcome::Failed(e) => RobustStep::ClearReadonly(e),
    }
}

/// The step after the recovery pass: the second deletion where the pass went
/// through (`cleared`), and else the end, with the first deletion's error.
pub fn after_clearing<E>(first: E, cleared: bool) -> (step: RobustStep<E>)
    ensures
        step == step_after_clearing(first, cleared),
{
    if cleared {
        RobustStep::DeleteAgain
    } else {
        RobustStep::Done(Err(first))
    }
}

/// The end after the second deletion, with its own error if it has one.
pub fn after_second_delete<E>(second: DeleteOutcome<E>) -> (result: Result<(), E>)
    ensures
        result == result_of_second(second),
{
    match second {
        DeleteOutcome::Removed => Ok(()),
        DeleteOutcome::Missing => Ok(()),
        DeleteOutcome::Failed(e) => Err(e),
    }
}

/// Whether the directory is gone, from the outcomes of the steps as far as they
/// are taken.
pub open spec fn is_gone<E>(first: DeleteOutcome<E>, cleared: bool, second: DeleteOutcome<E>) -> bool {
    !(first is Failed) || (cleared && !(second is Failed))
}

/// A removal succeeds exactly when a deletion that it comes to leaves no
/// directory behind, and otherwise reports the error of the last deletion that it
/// came to.
pub proof fn law_robust_removal_reports_what_is_left<E>(
    first: DeleteOutcome<E>,
    cleared: bool,
    second: DeleteOutcome<E>,
)
    ensures
        ({
            let result = match step_after_first(first) {
                RobustStep::Done(r) => r,
                RobustStep::ClearReadonly(e) => match step_after_clearing(e, cleared) {
                    RobustStep::Done(r) => r,
                    _ => result_of_second(second),
                },
                RobustStep::DeleteAgain => result_of_second(second),
            };
            &&& result is Ok <==> is_gone(first, cleared, second)
            &&& result matches Err(e) ==> first is Failed && (if cleared {
                second == DeleteOutcome::Failed(e)
            } else {
                first == DeleteOutcome::Failed(e)
            })
        }),
{
}

/// The ladder as it is climbed: `removals` are its states, each the one that a
/// failed attempt at the last left to wait for `waits` milliseconds, and `step` is
/// what comes of an attempt at the top. The first wait is of two seconds and each
/// further one is twice as long. The name, the directory and the number of retries
/// allowed stay what they were. The top is the end if the attempt succeeded or no
/// retry is left, and only then; the name is handed over with the number of
/// attempts and whether they were in vain.
pub proof fn law_a_ladder_ends_with_its_own_name(
    removals: Seq<Removal>,
    waits: Seq<u64>,
    removed: bool,
    step: RemovalStep,
)
    requires
        removals.len() == waits.len() + 1,
        removals[0].failed_attempts() == 0,
        forall|i: int|
            0 <= i < waits.len() ==> call_ensures(
                Removal::step,
                (removals[i], false),
                (RemovalStep::Wait { millis: #[trigger] waits[i], removal: removals[i + 1] }),
            ),
        call_ensures(Removal::step, (removals[waits.len() as int], removed), step),
    ensures
        waits.len() > 0 ==> waits[0] == 2000,
        forall|i: int|
            0 <= i < waits.len() - 1 ==> #[trigger] waits[i + 1] == 2 * waits[i],
        removals[waits.len() as int].dir() == removals[0].dir(),
        step is Unregister <==> removed || waits.len() == removals[0].allowed_retries(),
        step matches RemovalStep::Unregister { name, gave_up, attempts } ==> name@
            == removals[0].name_text() && gave_up == !removed && attempts == waits.len() + 1,
        step matches RemovalStep::Wait { millis, removal } ==> removal.name_text()
            == removals[0].name_text() && removal.dir() == removals[0].dir(),
{
    lemma_ladder_state(removals, waits, waits.len() as int);
    assert forall|i: int| 0 <= i < waits.len() - 1 implies #[trigger] waits[i + 1] == 2
        * waits[i] by {
        lemma_ladder_state(removals, waits, i);
        lemma_ladder_state(removals, waits, i + 1);
    }
    if waits.len() > 0 {
        lemma_ladder_state(removals, waits, 0);
    }
}

proof fn lemma_ladder_state(removals: Seq<Removal>, waits: Seq<u64>, n: int)
    requires
        removals.len() == waits.len() + 1,
        0 <= n <= waits.len(),
        removals[0].failed_attempts() == 0,
        forall|i: int|
            0 <= i < waits.len() ==> call_ensures(
                Removal::step,
                (removals[i], false),
                (RemovalStep::Wait { millis: #[trigger] waits[i], removal: removals[i + 1] }),
            ),
    ensures
        removals[n].failed_attempts() == n,
        removals[n].name_text() == removals[0].name_text(),
        removals[n].dir() == removals[0].dir(),
        removals[n].allowed_retries() == removals[0].allowed_retries(),
        n < waits.len() ==> waits[n] == retry_delay(n as nat),
    decreases n,
{
    if n > 0 {
        lemma_ladder_state(removals, waits, n - 1);
        let before = waits[n - 1];
        assert(call_ensures(
            Removal::step,
            (removals[n - 1], false),
            (RemovalStep::Wait { millis: before, removal: removals[n] }),
        ));
    }
    if n < waits.len() {
        let next = waits[n];
        assert(call_ensures(
            Removal::step,
            (removals[n], false),
            (RemovalStep::Wait { millis: next, removal: removals[n + 1] }),
        ));
    }
}

/// The directory that an attempt is to delete is the one on its way out.
pub proof fn law_attempts_are_at_the_directory(removal: Removal, path: &PathBuf)
    requires
        call_ensures(Removal::path, (&removal,), path),
    ensures
        *path == removal.dir(),
{
}

/// A deletion that leaves no directory is the end of a robust removal, with
/// success, be it the first or the second. A first that fails brings the recovery
/// pass about, with its error at hand; a pass that fails ends in that error, and
/// one that succeeds in a second deletion, whose own error is the last word.
pub proof fn law_a_robust_removal_deletes_at_most_twice<E>(
    first: DeleteOutcome<E>,
    after_first: RobustStep<E>,
    error: E,
    cleared: bool,
    after_pass: RobustStep<E>,
    second: DeleteOutcome<E>,
    result: Result<(), E>,
)
    requires
        call_ensures(remove_dir_robust::<E>, (first,), after_first),
        call_ensures(after_clearing::<E>, (error, cleared), after_pass),
        call_ensures(after_second_delete::<E>, (second,), result),
    ensures
        first is Removed || first is Missing ==> after_first == RobustStep::<E>::Done(Ok(())),
        first matches DeleteOutcome::Failed(e) ==> after_first == RobustStep::ClearReadonly(e),
        cleared ==> after_pass == RobustStep::<E>::DeleteAgain,
        !cleared ==> after_pass == RobustStep::Done(Err(error)),
        second is Removed || second is Missing ==> result == Ok::<(), E>(()),
        second matches DeleteOutcome::Failed(e) ==> result == Err::<(), E>(e),
{
}

} // verus!
