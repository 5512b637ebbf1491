//! Whether the owner of a directory is still running.

use vstd::prelude::*;

verus! {

/// What a pid probe established. The third state is the point: a probe that
/// FAILED tells us nothing, and must not be collapsed into "dead" by a caller
/// that is about to delete something.
#[derive(Debug, Clone, Copy, PartialEq, Eq, Structural)]
pub enum PidState {
    Alive,
    Dead,
    Unknown,
}

/// How `kill(pid, 0)` answered. It sends no signal; the kernel just validates
/// the target.
#[derive(Debug, Clone, Copy, PartialEq, Eq, Structural)]
pub enum KillReply {
    /// It returned zero.
    Delivered,
    /// `ESRCH`.
    NoSuchProcess,
    /// `EPERM`.
    NotPermitted,
    /// Any other error, or none that could be read.
    OtherError,
}

/// How `OpenProcess` and `GetExitCodeProcess` answered.
#[derive(Debug, Clone, Copy, PartialEq, Eq, Structural)]
pub enum ProcessReply {
    /// No handle, and the last error was `ERROR_INVALID_PARAMETER`.
    InvalidParameter,
    /// No handle, for any other reason.
    NotOpened,
    /// A handle, but its exit code could not be read.
    ExitCodeUnreadable,
    /// The exit code was `STILL_ACTIVE`.
    StillActive,
    /// Any other exit code.
    Exited,
}

/// What the operating system said of a pid.
#[derive(Debug, Clone, Copy, PartialEq, Eq, Structural)]
pub enum ProbeReply {
    Unix(KillReply),
    Windows(ProcessReply),
}

/// What a reply establishes. Only two replies positively mean "no such
/// process"; access denied means that it may well be running.
pub open spec fn state_of_reply(reply: ProbeReply) -> PidState {
    match reply {
        ProbeReply::Unix(KillReply::Delivered) => PidState::Alive,
        ProbeReply::Unix(KillReply::NoSuchProcess) => PidState::Dead,
        ProbeReply::Unix(KillReply::NotPermitted) => PidState::Alive,
        ProbeReply::Unix(KillReply::OtherError) => PidState::Unknown,
        ProbeReply::Windows(ProcessReply::InvalidParameter) => PidState::Dead,
        ProbeReply::Windows(ProcessReply::NotOpened) => PidState::Unknown,
        ProbeReply::Windows(ProcessReply::ExitCodeUnreadable) => PidState::Unknown,
        ProbeReply::Windows(ProcessReply::StillActive) => PidState::Alive,
        ProbeReply::Windows(ProcessReply::Exited) => PidState::Dead,
    }
}

/// What a probe of `pid` establishes; `None` where nothing was asked.
pub open spec fn probed_state(pid: u32, reply: Option<ProbeReply>) -> PidState {
    match reply {
        Some(r) if pid != 0 => state_of_reply(r),
        _ => PidState::Unknown,
    }
}

/// Whether the operating system is to be asked about `pid` at all. Zero names no
/// process there: `kill` would take it for the caller's own process group.
pub fn needs_probe(pid: u32) -> (ask: bool)
    ensures
        ask == (pid != 0),
{
    pid != 0
}

/// Tri-state liveness probe: what the operating system's `reply` about `pid`
/// establishes.
///
/// One process is asking about another here, so an indeterminate answer must
/// not be read as "gone".
pub fn probe_pid(pid: u32, reply: Option<ProbeReply>) -> (state: PidState)
    ensures
        state == probed_state(pid, reply),
{
    if pid == 0 {
        return PidState::Unknown;
    }
    match reply {
        None => PidState::Unknown,
        Some(ProbeReply::Unix(kill)) => match kill {
            KillReply::Delivered => PidState::Alive,
            KillReply::NoSuchProcess => PidState::Dead,
            // Alive, just owned by somebody else.
            KillReply::NotPermitted => PidState::Alive,
            KillReply::OtherError => PidState::Unknown,
        },
        Some(ProbeReply::Windows(process)) => match process {
            ProcessReply::InvalidParameter => PidState::Dead,
            ProcessReply::NotOpened => PidState::Unknown,
            ProcessReply::ExitCodeUnreadable => PidState::Unknown,
            ProcessReply::StillActive => PidState::Alive,
            ProcessReply::Exited => PidState::Dead,
        },
    }
}

impl PidState {
    /// Whether a directory whose owner is in this state may be deleted.
    pub fn authorizes_delete(self) -> (yes: bool)
        ensures
            yes == (self == PidState::Dead),
    {
        match self {
            PidState::Dead => true,
            _ => false,
        }
    }
}

/// Nothing short of a positive answer makes a process dead: not pid zero, not a
/// question that was never asked, not a failed or refused one.
pub proof fn law_only_positive_answers_mean_dead(pid: u32, reply: Option<ProbeReply>)
    requires
        probed_state(pid, reply) == PidState::Dead,
    ensures
        pid != 0,
        reply == Some(ProbeReply::Unix(KillReply::NoSuchProcess)) || reply == Some(
            ProbeReply::Windows(ProcessReply::InvalidParameter),
        ) || reply == Some(ProbeReply::Windows(ProcessReply::Exited)),
{
}

/// For every pid but zero the reply alone decides, and it decides both ways: the
/// process is dead exactly when there is none of that pid or it has exited, alive
/// exactly when it was reached, belongs to somebody else or is still active, and
/// unknown otherwise. Of pid zero nothing is ever known.
pub proof fn law_the_reply_decides(pid: u32, reply: Option<ProbeReply>, state: PidState)
    requires
        call_ensures(probe_pid, (pid, reply), state),
    ensures
        pid == 0 ==> state == PidState::Unknown,
        pid != 0 ==> (state == PidState::Dead <==> reply == Some(
            ProbeReply::Unix(KillReply::NoSuchProcess),
        ) || reply == Some(ProbeReply::Windows(ProcessReply::InvalidParameter)) || reply == Some(
            ProbeReply::Windows(ProcessReply::Exited),
        )),
        pid != 0 ==> (state == PidState::Alive <==> reply == Some(
            ProbeReply::Unix(KillReply::Delivered),
        ) || reply == Some(ProbeReply::Unix(KillReply::NotPermitted)) || reply == Some(
            ProbeReply::Windows(ProcessReply::StillActive),
        )),
{
}

/// Two probes of processes other than zero that got the same reply establish the
/// same.
pub proof fn law_all_pids_are_probed_alike(
    pid1: u32,
    pid2: u32,
    reply: Option<ProbeReply>,
    state1: PidState,
    state2: PidState,
)
    requires
        pid1 != 0,
        pid2 != 0,
        call_ensures(probe_pid, (pid1, reply), state1),
        call_ensures(probe_pid, (pid2, reply), state2),
    ensures
        state1 == state2,
{
}

/// Every pid but zero is asked about; and a directory may be deleted exactly when
/// the reply says that its owner does not exist or has exited.
pub proof fn law_deletion_takes_a_death(
    pid: u32,
    ask: bool,
    reply: Option<ProbeReply>,
    state: PidState,
    yes: bool,
)
    requires
        call_ensures(needs_probe, (pid,), ask),
        call_ensures(probe_pid, (pid, reply), state),
        call_ensures(PidState::authorizes_delete, (state,), yes),
    ensures
        ask <==> pid != 0,
        yes <==> ask && (reply == Some(ProbeReply::Unix(KillReply::NoSuchProcess)) || reply == Some(
            ProbeReply::Windows(ProcessReply::InvalidParameter),
        ) || reply == Some(ProbeReply::Windows(ProcessReply::Exited))),
{
}

} // verus!
