//! The decisions of a process supervisor: how the child's I/O is set up, and what happens
//! when the child exits or the supervisor is told to stop.

use vstd::prelude::*;

verus! {

/// How the child's standard streams are set up.
#[derive(Debug, Clone, Copy, PartialEq, Eq, Structural)]
pub enum ChildIoMode {
    /// Through a pseudo terminal, when the supervisor runs in an interactive terminal.
    Tty,
    /// Through pipes.
    Piped,
}

/// The mode for a supervisor that does or does not run in an interactive terminal.
pub fn io_mode(interactive: bool) -> (m: ChildIoMode)
    ensures
        interactive ==> m == ChildIoMode::Tty,
        !interactive ==> m == ChildIoMode::Piped,
{
    if interactive {
        ChildIoMode::Tty
    } else {
        ChildIoMode::Piped
    }
}

/// What ended the wait on the child.
#[derive(Debug, Clone, Copy, PartialEq, Eq, Structural)]
pub enum SupervisorEvent {
    /// The child exited.
    ChildExited,
    /// The supervisor received SIGTERM.
    Terminated,
    /// The supervisor received SIGINT.
    Interrupted,
}

/// What the supervisor does after the wait: the monitoring always stops; on a signal the
/// child, if it is known, is sent SIGTERM (its id taken as a signed process id) and waited
/// for again.
#[derive(Debug, Clone, Copy, PartialEq, Eq, Structural)]
pub struct SupervisorPlan {
    /// Stop monitoring the child.
    pub stop_monitor: bool,
    /// The process id to send SIGTERM to, if any.
    pub send_sigterm: Option<i32>,
    /// Wait for the child again.
    pub wait_again: bool,
}

/// The process id that `Pid::from_raw(pid as i32)` takes: the bits of the id as a signed
/// number.
pub open spec fn signed_pid(pid: u32) -> i32 {
    pid as i32
}

/// The child that the supervisor knows of.
#[derive(Debug, Clone, Copy, PartialEq, Eq, Structural)]
pub struct SupervisorState {
    /// The id of the running child, if any.
    pub child_pid: Option<u32>,
}

impl SupervisorState {
    /// A supervisor with no child.
    pub fn new() -> (s: Self)
        ensures
            s.child_pid is None,
    {
        SupervisorState { child_pid: None }
    }

    /// Records the id of the child just started.
    pub fn started(&mut self, pid: u32)
        ensures
            final(self).child_pid == Some(pid),
    {
        self.child_pid = Some(pid);
    }

    /// Decides what to do about what ended the wait; whatever ended it, the supervisor knows
    /// of no child afterwards.
    pub fn on_event(&mut self, ev: SupervisorEvent) -> (p: SupervisorPlan)
        ensures
            final(self).child_pid is None,
            p.stop_monitor,
            ev == SupervisorEvent::ChildExited ==> p.send_sigterm is None && !p.wait_again,
            ev != SupervisorEvent::ChildExited ==> p.wait_again && p.send_sigterm == match old(self).child_pid {
                Some(pid) => Some(signed_pid(pid)),
                None => None,
            },
    {
        match ev {
            SupervisorEvent::ChildExited => {
                self.child_pid = None;
                SupervisorPlan { stop_monitor: true, send_sigterm: None, wait_again: false }
            },
            _ => {
                let target = match self.child_pid {
                    Some(pid) => Some(#[verifier::truncate] (pid as i32)),
                    None => None,
                };
                self.child_pid = None;
                SupervisorPlan { stop_monitor: true, send_sigterm: target, wait_again: true }
            },
        }
    }
}

} // verus!
