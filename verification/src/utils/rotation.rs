//! The decisions of a rotating log: when a write makes the log rotate, and what the count
//! of bytes written becomes as writes and rotations succeed or fail.

use vstd::prelude::*;

verus! {

/// Where a write to the log stands.
#[derive(Debug, Clone, Copy, PartialEq, Eq, Structural)]
pub enum WriteStep {
    /// No write is under way.
    Idle,
    /// The log is being rotated before the write.
    Rotating,
    /// The bytes are being written.
    Writing,
}

/// What the writer must do next.
#[derive(Debug, Clone, Copy, PartialEq, Eq, Structural)]
pub enum WriteAction {
    /// Rotate the log: move the file aside and open a new one.
    Rotate,
    /// Write the bytes to the file.
    Write,
    /// Report the bytes written.
    Done,
    /// Report the error.
    Fail,
}

/// What the outside work reported.
#[derive(Debug, Clone, Copy, PartialEq, Eq, Structural)]
pub enum WriteEvent {
    /// The rotation succeeded.
    Rotated,
    /// The rotation failed.
    RotationFailed,
    /// The bytes were written.
    Written,
    /// The write failed.
    WriteFailed,
}

/// `a - b`, wrapping around 2^64 as an atomic counter's subtraction does.
pub open spec fn wrapped_sub(a: u64, b: u64) -> u64 {
    if a >= b {
        (a - b) as u64
    } else {
        (a - b + 0x1_0000_0000_0000_0000) as u64
    }
}

/// Whether a write of `len` bytes to a log that holds `size` bytes goes past `max_size`.
pub open spec fn exceeds(size: u64, len: u64, max_size: u64) -> bool {
    size + len > max_size
}

/// The state of a rotating log's writer: the step of the write under way, the bytes counted
/// as written to the current file, and the size past which it rotates.
#[derive(Debug, Clone, Copy, PartialEq, Eq, Structural)]
pub struct RotationState {
    /// The step of the write under way.
    pub step: WriteStep,
    /// The bytes counted as written to the current file.
    pub current_size: u64,
    /// The size past which the log rotates.
    pub max_size: u64,
}

impl RotationState {
    /// A writer with nothing under way, for a file that holds `current_size` bytes.
    pub fn new(current_size: u64, max_size: u64) -> (s: Self)
        ensures
            s == (RotationState { step: WriteStep::Idle, current_size, max_size }),
    {
        RotationState { step: WriteStep::Idle, current_size, max_size }
    }

    /// Starts a write of `len` bytes: the bytes are counted at once; the log rotates first
    /// when they take it past its largest size, and otherwise they are written.
    pub fn start_write(&mut self, len: u64) -> (a: WriteAction)
        requires
            old(self).step == WriteStep::Idle,
            old(self).current_size + len <= u64::MAX,
        ensures
            final(self).current_size == old(self).current_size + len,
            final(self).max_size == old(self).max_size,
            exceeds(old(self).current_size, len, old(self).max_size) ==> a == WriteAction::Rotate && final(self).step
                == WriteStep::Rotating,
            !exceeds(old(self).current_size, len, old(self).max_size) ==> a == WriteAction::Write && final(self).step
                == WriteStep::Writing,
            *final(self) == after_start(*old(self), len),
    {
        let size = self.current_size;
        self.current_size = size + len;
        if size + len > self.max_size {
            self.step = WriteStep::Rotating;
            WriteAction::Rotate
        } else {
            self.step = WriteStep::Writing;
            WriteAction::Write
        }
    }

    /// Takes what the outside work reported for a write of `len` bytes: a rotation that
    /// succeeds starts the count of the new file with these bytes and goes on to the write; a failed rotation
    /// or write takes the bytes off the count again (wrapping, as an atomic counter does)
    /// and fails; a write that succeeds is done. An event that does not fit the step changes
    /// nothing and fails.
    pub fn on_event(&mut self, ev: WriteEvent, len: u64) -> (a: WriteAction)
        ensures
            final(self).max_size == old(self).max_size,
            match (old(self).step, ev) {
                (WriteStep::Rotating, WriteEvent::Rotated) => final(self).current_size == len && final(self).step
                    == WriteStep::Writing && a == WriteAction::Write,
                (WriteStep::Rotating, WriteEvent::RotationFailed) => final(self).current_size == wrapped_sub(old(self).current_size, len) && final(self).step == WriteStep::Idle && a == WriteAction::Fail,
                (WriteStep::Writing, WriteEvent::Written) => final(self).current_size == old(self).current_size
                    && final(self).step == WriteStep::Idle && a == WriteAction::Done,
                (WriteStep::Writing, WriteEvent::WriteFailed) => final(self).current_size == wrapped_sub(old(self).current_size, len) && final(self).step == WriteStep::Idle && a == WriteAction::Fail,
                _ => *final(self) == *old(self) && a == WriteAction::Fail,
            },
            *final(self) == after_event(*old(self), ev, len),
    {
        match (self.step, ev) {
            (WriteStep::Rotating, WriteEvent::Rotated) => {
                self.current_size = len;
                self.step = WriteStep::Writing;
                WriteAction::Write
            },
            (WriteStep::Rotating, WriteEvent::RotationFailed) => {
                self.current_size = self.current_size.wrapping_sub(len);
                self.step = WriteStep::Idle;
                WriteAction::Fail
            },
            (WriteStep::Writing, WriteEvent::Written) => {
                self.step = WriteStep::Idle;
                WriteAction::Done
            },
            (WriteStep::Writing, WriteEvent::WriteFailed) => {
                self.current_size = self.current_size.wrapping_sub(len);
                self.step = WriteStep::Idle;
                WriteAction::Fail
            },
            _ => WriteAction::Fail,
        }
    }
}

/// Whether the log behind a synchronous writer rotates before taking `len` more bytes, when
/// `size` bytes were counted before them.
pub fn channel_needs_rotation(size: u64, len: u64, max_size: u64) -> (r: bool)
    requires
        size + len <= u64::MAX,
    ensures
        r == exceeds(size, len, max_size),
{
    size + len > max_size
}

/// The state after taking an event, as `on_event` takes it.
pub open spec fn after_event(s: RotationState, ev: WriteEvent, len: u64) -> RotationState {
    match (s.step, ev) {
        (WriteStep::Rotating, WriteEvent::Rotated) => RotationState { step: WriteStep::Writing, current_size: len, ..s },
        (WriteStep::Rotating, WriteEvent::RotationFailed) => RotationState {
            step: WriteStep::Idle,
            current_size: wrapped_sub(s.current_size, len),
            ..s
        },
        (WriteStep::Writing, WriteEvent::Written) => RotationState { step: WriteStep::Idle, ..s },
        (WriteStep::Writing, WriteEvent::WriteFailed) => RotationState {
            step: WriteStep::Idle,
            current_size: wrapped_sub(s.current_size, len),
            ..s
        },
        _ => s,
    }
}

/// The state after starting a write, as `start_write` leaves it.
pub open spec fn after_start(s: RotationState, len: u64) -> RotationState {
    RotationState {
        step: if exceeds(s.current_size, len, s.max_size) { WriteStep::Rotating } else { WriteStep::Writing },
        current_size: (s.current_size + len) as u64,
        ..s
    }
}

/// A write that fails before the log rotated leaves the count as it was before the write;
/// one that succeeds without rotating adds its bytes; one that rotates leaves the count at
/// the bytes of the write, which are all the new file holds; one that fails after rotating
/// leaves the count of the new, empty file at zero.
pub proof fn law_failed_write_restores_the_count(s: RotationState, len: u64)
    requires
        s.step == WriteStep::Idle,
        s.current_size + len <= u64::MAX,
    ensures
        exceeds(s.current_size, len, s.max_size) ==> after_event(after_start(s, len), WriteEvent::RotationFailed, len).current_size
            == s.current_size,
        !exceeds(s.current_size, len, s.max_size) ==> after_event(after_start(s, len), WriteEvent::WriteFailed, len).current_size
            == s.current_size,
        !exceeds(s.current_size, len, s.max_size) ==> after_event(after_start(s, len), WriteEvent::Written, len).current_size
            == s.current_size + len,
        exceeds(s.current_size, len, s.max_size) ==> after_event(
            after_event(after_start(s, len), WriteEvent::Rotated, len),
            WriteEvent::Written,
            len,
        ).current_size == len,
        exceeds(s.current_size, len, s.max_size) ==> after_event(
            after_event(after_start(s, len), WriteEvent::Rotated, len),
            WriteEvent::WriteFailed,
            len,
        ).current_size == 0,
{
}

} // verus!
