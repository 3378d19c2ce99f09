//! The protocol test of the accessory transport: whole frames over single bulk transfers, without a
//! stream in between.

use vstd::prelude::*;

use crate::aoa::Transfer;
use crate::echo::PromptWait;
use crate::frame::frame_bytes;
use crate::message::{HostMessage, PixelFormat};
use crate::message::HostMsg;
use crate::wire::host_bytes;

verus! {

// --- parts of a buffer --------------------------------------------------------------------------

/// What to do with the rest of a buffer.
#[derive(Debug, Clone, Copy, PartialEq, Eq, Structural)]
pub enum BufferStep {
    /// Transfer what begins at this offset.
    From(usize),
    /// The whole buffer has been transferred.
    Complete,
    /// The other end stopped after so many bytes.
    Short(usize),
    /// A transfer failed after so many bytes.
    Broken(usize),
}

/// How much of a buffer has been transferred.
pub struct ProgressState {
    pub done: int,
    pub len: int,
}

/// A buffer that is transferred part by part.
#[derive(Debug)]
pub struct BufferProgress {
    done: usize,
    len: usize,
}

impl View for BufferProgress {
    type V = ProgressState;

    closed spec fn view(&self) -> ProgressState {
        ProgressState { done: self.done as int, len: self.len as int }
    }
}

/// The step for a buffer of which `done` bytes have been transferred.
pub open spec fn progress_step(done: int, len: int) -> BufferStep {
    if done < len {
        BufferStep::From(done as usize)
    } else {
        BufferStep::Complete
    }
}

/// How far a buffer is after the result of a read into its rest, and what to do next.
pub open spec fn read_next(st: ProgressState, transfer: Transfer) -> (ProgressState, BufferStep) {
    match transfer {
        Transfer::Done(n) => (
            ProgressState { done: st.done + n, ..st },
            if n == 0 {
                BufferStep::Short(st.done as usize)
            } else {
                progress_step(st.done + n, st.len)
            },
        ),
        _ => (st, BufferStep::Broken(st.done as usize)),
    }
}

/// How far a buffer is after the result of a write of its rest, and what to do next.
pub open spec fn write_next(st: ProgressState, transfer: Transfer) -> (ProgressState, BufferStep) {
    match transfer {
        Transfer::Done(n) => (
            ProgressState { done: st.done + n, ..st },
            progress_step(st.done + n, st.len),
        ),
        _ => (st, BufferStep::Broken(st.done as usize)),
    }
}

impl BufferProgress {
    /// No more than the buffer has been transferred.
    pub open spec fn wf(self) -> bool {
        0 <= self@.done <= self@.len <= usize::MAX
    }

    /// Nothing has been transferred of a buffer of `len` bytes.
    pub fn new(len: usize) -> (progress: BufferProgress)
        ensures
            progress.wf(),
            progress@ == (ProgressState { done: 0, len: len as int }),
    {
        BufferProgress { done: 0, len }
    }

    /// The next step.
    pub fn step(&self) -> (step: BufferStep)
        ensures
            step == progress_step(self@.done, self@.len),
    {
        if self.done < self.len {
            BufferStep::From(self.done)
        } else {
            BufferStep::Complete
        }
    }

    /// Takes the result of a read into the rest of the buffer. A read without bytes ends short, and
    /// one that times out is broken.
    pub fn read_exact(&mut self, transfer: Transfer) -> (step: BufferStep)
        requires
            old(self).wf(),
            transfer matches Transfer::Done(n) ==> n <= old(self)@.len - old(self)@.done,
        ensures
            final(self).wf(),
            final(self)@.len == old(self)@.len,
            final(self)@.done == old(self)@.done + (match transfer {
                Transfer::Done(n) => n as int,
                _ => 0,
            }),
            step == (match transfer {
                Transfer::Done(n) => if n == 0 {
                    BufferStep::Short(old(self)@.done as usize)
                } else {
                    progress_step(old(self)@.done + n, old(self)@.len)
                },
                _ => BufferStep::Broken(old(self)@.done as usize),
            }),
            (final(self)@, step) == read_next(old(self)@, transfer),
    {
        match transfer {
            Transfer::Done(n) => {
                if n == 0 {
                    return BufferStep::Short(self.done);
                }
                self.done = self.done + n;
                self.step()
            },
            _ => BufferStep::Broken(self.done),
        }
    }

    /// Takes the result of a write of the rest of the buffer. A write that takes nothing is tried
    /// again.
    pub fn write_all(&mut self, transfer: Transfer) -> (step: BufferStep)
        requires
            old(self).wf(),
            transfer matches Transfer::Done(n) ==> n <= old(self)@.len - old(self)@.done,
        ensures
            final(self).wf(),
            final(self)@.len == old(self)@.len,
            final(self)@.done == old(self)@.done + (match transfer {
                Transfer::Done(n) => n as int,
                _ => 0,
            }),
            step == (match transfer {
                Transfer::Done(n) => progress_step(old(self)@.done + n, old(self)@.len),
                _ => BufferStep::Broken(old(self)@.done as usize),
            }),
            (final(self)@, step) == write_next(old(self)@, transfer),
    {
        match transfer {
            Transfer::Done(n) => {
                self.done = self.done + n;
                self.step()
            },
            _ => BufferStep::Broken(self.done),
        }
    }
}

/// What the read of a frame's length brought.
#[derive(Debug, Clone, Copy, PartialEq, Eq, Structural)]
pub enum HeaderStep {
    /// The length is there: the body follows.
    Body,
    /// No frame has come.
    Nothing,
    /// Only a part of the length has come.
    Short(usize),
    /// The transfer failed.
    Broken,
}

/// The step after the read of a frame's four length bytes.
pub open spec fn header_step(transfer: Transfer) -> HeaderStep {
    match transfer {
        Transfer::Done(n) => if n == 4 {
            HeaderStep::Body
        } else if n == 0 {
            HeaderStep::Nothing
        } else {
            HeaderStep::Short(n)
        },
        Transfer::Timeout => HeaderStep::Nothing,
        Transfer::Failed => HeaderStep::Broken,
    }
}

/// Decides on the read of a frame's four length bytes. Silence is no error.
pub fn try_read_frame(transfer: Transfer) -> (step: HeaderStep)
    ensures
        step == (match transfer {
            Transfer::Done(n) => if n == 4 {
                HeaderStep::Body
            } else if n == 0 {
                HeaderStep::Nothing
            } else {
                HeaderStep::Short(n)
            },
            Transfer::Timeout => HeaderStep::Nothing,
            Transfer::Failed => HeaderStep::Broken,
        }),
        step == header_step(transfer),
{
    match transfer {
        Transfer::Done(n) => if n == 4 {
            HeaderStep::Body
        } else if n == 0 {
            HeaderStep::Nothing
        } else {
            HeaderStep::Short(n)
        },
        Transfer::Timeout => HeaderStep::Nothing,
        Transfer::Failed => HeaderStep::Broken,
    }
}

/// What to do after a try to write the preamble.
#[derive(Debug, Clone, Copy, PartialEq, Eq, Structural)]
pub enum PreambleStep {
    /// It has been written.
    Written,
    /// Only so many bytes have been written.
    Short(usize),
    /// Try again.
    Retry,
    /// Give up.
    Fail,
}

/// The step after try number `attempt`, counted from 1, to write a preamble of `len` bytes at once.
pub open spec fn preamble_step(
    wait: PromptWait,
    attempt: u32,
    len: usize,
    transfer: Transfer,
) -> PreambleStep {
    match transfer {
        Transfer::Done(n) => if n == len {
            PreambleStep::Written
        } else {
            PreambleStep::Short(n)
        },
        Transfer::Timeout => if attempt < wait.attempts {
            PreambleStep::Retry
        } else {
            PreambleStep::Fail
        },
        Transfer::Failed => PreambleStep::Fail,
    }
}

/// Decides on try number `attempt`, counted from 1, to write a preamble of `len` bytes at once.
pub fn after_preamble(wait: PromptWait, attempt: u32, len: usize, transfer: Transfer) -> (step:
    PreambleStep)
    ensures
        step == (match transfer {
            Transfer::Done(n) => if n == len {
                PreambleStep::Written
            } else {
                PreambleStep::Short(n)
            },
            Transfer::Timeout => if attempt < wait.attempts {
                PreambleStep::Retry
            } else {
                PreambleStep::Fail
            },
            Transfer::Failed => PreambleStep::Fail,
        }),
        step == preamble_step(wait, attempt, len, transfer),
{
    match transfer {
        Transfer::Done(n) => if n == len {
            PreambleStep::Written
        } else {
            PreambleStep::Short(n)
        },
        Transfer::Timeout => if attempt < wait.attempts {
            PreambleStep::Retry
        } else {
            PreambleStep::Fail
        },
        Transfer::Failed => PreambleStep::Fail,
    }
}

// --- what the test sends ------------------------------------------------------------------------

/// Number of frames that the test sends.
pub const TEST_FRAMES: u32 = 50;

/// Bytes of payload in each frame.
pub const TEST_PAYLOAD: usize = 1024;

/// The frame that the test sends over and over, with its length in front.
pub fn test_frame() -> (frame: Vec<u8>)
    ensures
        frame@ == frame_bytes(
            host_bytes(
                HostMsg::VideoFrame {
                    format: PixelFormat::H264,
                    width: 1920,
                    height: 1080,
                    data: Seq::new(TEST_PAYLOAD as nat, |i: int| 0xAAu8),
                },
            ),
        ),
{
    let data: Vec<u8> = vec![0xAAu8; TEST_PAYLOAD];
    assert(data@ =~= Seq::new(TEST_PAYLOAD as nat, |i: int| 0xAAu8));
    let msg = HostMessage::VideoFrame { format: PixelFormat::H264, width: 1920, height: 1080, data };
    let body = msg.encode();
    crate::frame::write_frame(body.as_slice())
}

// --- waiting for an accessory -------------------------------------------------------------------

/// How often a device is asked to become an accessory.
pub const SWITCH_ATTEMPTS: u32 = 3;

/// Where the wait stands.
#[derive(Debug, Clone, Copy, PartialEq, Eq, Structural)]
pub enum WaitPhase {
    /// Looking for an accessory before a device is switched.
    Looking,
    /// A device is being switched.
    Switching,
    /// Looking for the switched device, which may need so many more looks.
    Polling(u32),
}

/// What has happened.
#[derive(Debug, Clone, Copy, PartialEq, Eq, Structural)]
pub enum WaitEvent {
    /// Whether an accessory was there.
    Looked(bool),
    /// Whether a device was switched.
    Switched(bool),
}

/// What to do next.
#[derive(Debug, Clone, Copy, PartialEq, Eq, Structural)]
pub enum WaitAction {
    /// Look for an accessory.
    Look,
    /// Switch a device.
    Switch,
    /// There is an accessory.
    Ready,
    /// None has appeared.
    GiveUp,
}

/// A pause in milliseconds, then an action.
#[derive(Debug, Clone, Copy, PartialEq, Eq, Structural)]
pub struct WaitStep {
    pub pause_ms: u64,
    pub action: WaitAction,
}

/// A wait for an accessory.
#[derive(Debug, Clone, Copy, PartialEq, Eq, Structural)]
pub struct AccessoryWait {
    /// Number of switch attempts that have failed.
    pub attempt: u32,
    pub phase: WaitPhase,
    /// Number of looks for a switched device.
    pub polls: u32,
}

/// The wait after a failed attempt, and whether to go on.
pub open spec fn next_attempt(w: AccessoryWait, pause_ms: u64) -> (AccessoryWait, WaitStep) {
    (
        AccessoryWait { attempt: (w.attempt + 1) as u32, phase: WaitPhase::Looking, ..w },
        WaitStep {
            pause_ms,
            action: if w.attempt + 1 < SWITCH_ATTEMPTS {
                WaitAction::Look
            } else {
                WaitAction::GiveUp
            },
        },
    )
}

/// The wait and the step after an event.
pub open spec fn wait_next(w: AccessoryWait, event: WaitEvent) -> (AccessoryWait, WaitStep) {
    match event {
        WaitEvent::Looked(true) => (w, WaitStep { pause_ms: 0, action: WaitAction::Ready }),
        WaitEvent::Looked(false) => match w.phase {
            WaitPhase::Polling(left) => if left > 1 {
                (
                    AccessoryWait { phase: WaitPhase::Polling((left - 1) as u32), ..w },
                    WaitStep { pause_ms: 100, action: WaitAction::Look },
                )
            } else {
                next_attempt(w, 100)
            },
            _ => (
                AccessoryWait { phase: WaitPhase::Switching, ..w },
                WaitStep { pause_ms: 0, action: WaitAction::Switch },
            ),
        },
        WaitEvent::Switched(true) => (
            AccessoryWait { phase: WaitPhase::Polling(w.polls), ..w },
            WaitStep { pause_ms: 0, action: WaitAction::Look },
        ),
        WaitEvent::Switched(false) => next_attempt(w, 1000),
    }
}

/// The event answers what the phase asked for.
pub open spec fn answers(phase: WaitPhase, event: WaitEvent) -> bool {
    match phase {
        WaitPhase::Looking => event is Looked,
        WaitPhase::Switching => event is Switched,
        WaitPhase::Polling(_) => event is Looked,
    }
}

impl AccessoryWait {
    /// An attempt is left.
    pub open spec fn wf(self) -> bool {
        &&& self.attempt < SWITCH_ATTEMPTS
        &&& 0 < self.polls
        &&& self.phase matches WaitPhase::Polling(left) ==> 0 < left <= self.polls
    }

    /// A wait that begins with a look. A switched device is looked for ten times a second, for five
    /// seconds in the first session and for fifteen in later ones, when it may still be on its way.
    pub fn ensure_accessory(first: bool) -> (wait: AccessoryWait)
        ensures
            wait.wf(),
            wait == (AccessoryWait {
                attempt: 0,
                phase: WaitPhase::Looking,
                polls: if first {
                    50
                } else {
                    150
                },
            }),
    {
        let secs: u32 = if first {
            5
        } else {
            15
        };
        AccessoryWait { attempt: 0, phase: WaitPhase::Looking, polls: secs * 10 }
    }

    /// Ends an attempt.
    fn fail_attempt(&mut self, pause_ms: u64) -> (step: WaitStep)
        requires
            old(self).wf(),
        ensures
            (*final(self), step) == next_attempt(*old(self), pause_ms),
    {
        self.attempt = self.attempt + 1;
        self.phase = WaitPhase::Looking;
        let action = if self.attempt < SWITCH_ATTEMPTS {
            WaitAction::Look
        } else {
            WaitAction::GiveUp
        };
        WaitStep { pause_ms, action }
    }

    /// Takes an event: what to do next.
    pub fn on_event(&mut self, event: WaitEvent) -> (step: WaitStep)
        requires
            old(self).wf(),
            answers(old(self).phase, event),
        ensures
            (*final(self), step) == wait_next(*old(self), event),
            step.action != WaitAction::GiveUp ==> final(self).wf(),
    {
        match event {
            WaitEvent::Looked(true) => WaitStep { pause_ms: 0, action: WaitAction::Ready },
            WaitEvent::Looked(false) => match self.phase {
                WaitPhase::Polling(left) => {
                    if left > 1 {
                        self.phase = WaitPhase::Polling(left - 1);
                        WaitStep { pause_ms: 100, action: WaitAction::Look }
                    } else {
                        self.fail_attempt(100)
                    }
                },
                _ => {
                    self.phase = WaitPhase::Switching;
                    WaitStep { pause_ms: 0, action: WaitAction::Switch }
                },
            },
            WaitEvent::Switched(true) => {
                self.phase = WaitPhase::Polling(self.polls);
                WaitStep { pause_ms: 0, action: WaitAction::Look }
            },
            WaitEvent::Switched(false) => self.fail_attempt(1000),
        }
    }
}

/// An upper bound for the number of events that a wait can still take.
pub open spec fn events_left(w: AccessoryWait) -> int {
    (SWITCH_ATTEMPTS - 1 - w.attempt) * (w.polls + 2) + (match w.phase {
        WaitPhase::Looking => w.polls + 2,
        WaitPhase::Switching => w.polls + 1,
        WaitPhase::Polling(left) => left as int,
    })
}

/// A wait ends: each event that does not end it leaves fewer events to come, and at the beginning
/// there are at most three times as many as looks for a switched device and two more.
pub proof fn wait_ends(w: AccessoryWait, event: WaitEvent)
    requires
        w.wf(),
        answers(w.phase, event),
    ensures
        0 < events_left(w) <= SWITCH_ATTEMPTS * (w.polls + 2),
        ({
            let (next, step) = wait_next(w, event);
            step.action == WaitAction::Look || step.action == WaitAction::Switch ==> 0
                < events_left(next) < events_left(w)
        }),
{
    let p = w.polls + 2;
    let k = SWITCH_ATTEMPTS - 1 - w.attempt;
    assert(k * p + p == (k + 1) * p) by (nonlinear_arith);
    assert(0 <= k * p && (k + 1) * p <= 3 * p) by (nonlinear_arith)
        requires
            0 <= k <= 2,
            p > 0,
    ;
    assert((k - 1) * p + p == k * p) by (nonlinear_arith);
    assert(k >= 1 ==> 0 <= (k - 1) * p) by (nonlinear_arith)
        requires
            p > 0,
    ;
}

/// A wait ends well exactly when an accessory is seen. It gives up only after the third attempt, and
/// until then every attempt begins with a look, goes on with a switch where nothing is seen, and after
/// a switch that was taken looks again, as often as the wait allows.
pub proof fn wait_follows_what_is_seen(w: AccessoryWait, event: WaitEvent)
    requires
        w.wf(),
        answers(w.phase, event),
    ensures
        ({
            let (next, step) = wait_next(w, event);
            &&& step.action == WaitAction::Ready <==> event == WaitEvent::Looked(true)
            &&& step.action == WaitAction::GiveUp ==> w.attempt == 2 && (event
                == WaitEvent::Switched(false) || w.phase == WaitPhase::Polling(1))
            &&& step.action == WaitAction::Switch <==> event == WaitEvent::Looked(false) && w.phase
                == WaitPhase::Looking
            &&& event == WaitEvent::Switched(true) ==> next.phase == WaitPhase::Polling(w.polls)
                && step == (WaitStep { pause_ms: 0, action: WaitAction::Look })
            &&& event == WaitEvent::Switched(false) ==> step.pause_ms == 1000 && next.attempt
                == w.attempt + 1
            &&& event == WaitEvent::Looked(false) && w.phase is Polling ==> step.pause_ms == 100
            &&& w.attempt <= next.attempt <= w.attempt + 1
        }),
{
}

/// The part of a buffer that is still to be transferred begins where the part that was transferred
/// ends, and a buffer is complete exactly when nothing is left.
pub proof fn progress_goes_on_where_it_stopped(done: int, len: int)
    requires
        0 <= done <= len <= usize::MAX,
    ensures
        done < len ==> progress_step(done, len) == BufferStep::From(done as usize),
        progress_step(done, len) == BufferStep::Complete <==> done == len,
{
}

/// What a transfer moved is counted, and the next one begins right after it; the buffer is complete
/// exactly when all of it has been moved. A read without bytes ends short and a write that takes
/// nothing is tried again at the same place. Whatever goes wrong tells how much was moved before.
pub proof fn every_part_is_counted(st: ProgressState, n: usize)
    requires
        0 <= st.done < st.len <= usize::MAX,
        n <= st.len - st.done,
    ensures
        ({
            let (read, read_step) = read_next(st, Transfer::Done(n));
            let (written, write_step) = write_next(st, Transfer::Done(n));
            &&& read.done - st.done == n && written.done - st.done == n
            &&& read.len == st.len && written.len == st.len
            &&& write_step == BufferStep::Complete <==> st.done + n == st.len
            &&& st.done + n < st.len ==> write_step == BufferStep::From(written.done as usize)
            &&& n > 0 ==> read_step == write_step
            &&& n == 0 ==> read_step == BufferStep::Short(st.done as usize)
        }),
        read_next(st, Transfer::Failed) == (st, BufferStep::Broken(st.done as usize)),
        read_next(st, Transfer::Timeout) == (st, BufferStep::Broken(st.done as usize)),
        write_next(st, Transfer::Failed) == (st, BufferStep::Broken(st.done as usize)),
        write_next(st, Transfer::Timeout) == (st, BufferStep::Broken(st.done as usize)),
{
}

/// A frame follows exactly a whole length. Silence, be it a timeout or a read without bytes, is no
/// frame, and a part of a length is an error that tells how long the part is.
pub proof fn frame_follows_whole_length(n: usize)
    ensures
        header_step(Transfer::Done(n)) == HeaderStep::Body <==> n == 4,
        header_step(Transfer::Done(n)) == HeaderStep::Nothing <==> n == 0,
        n != 0 && n != 4 ==> header_step(Transfer::Done(n)) == HeaderStep::Short(n),
        header_step(Transfer::Timeout) == HeaderStep::Nothing,
        header_step(Transfer::Failed) == HeaderStep::Broken,
{
}

/// A preamble is written exactly when one write takes all of it. Only a timeout is tried again, and
/// no more often than the wait allows.
pub proof fn preamble_is_written_at_once(wait: PromptWait, attempt: u32, len: usize, n: usize)
    ensures
        preamble_step(wait, attempt, len, Transfer::Done(n)) == PreambleStep::Written <==> n == len,
        n != len ==> preamble_step(wait, attempt, len, Transfer::Done(n)) == PreambleStep::Short(n),
        preamble_step(wait, attempt, len, Transfer::Timeout) == PreambleStep::Retry <==> attempt
            < wait.attempts,
        attempt >= wait.attempts ==> preamble_step(wait, attempt, len, Transfer::Timeout)
            == PreambleStep::Fail,
        preamble_step(wait, attempt, len, Transfer::Failed) == PreambleStep::Fail,
{
}

} // verus!
