//! A virtual monitor on an evdi device: which device to take, which buffer to register, and when to
//! ask for pixels.

use vstd::arithmetic::mul::lemma_mul_inequality;
use vstd::prelude::*;

use crate::pixels::{bgra_to_rgb, row_of_byte, RgbFrame};

verus! {

/// Status of a device that can be opened.
pub const EVDI_AVAILABLE: i32 = 0;

/// How many device numbers are tried.
pub const DEVICE_COUNT: i32 = 16;

/// The id under which the monitor registers its buffer.
pub const BUFFER_ID: i32 = 1;

// --- finding a device -------------------------------------------------------------------------

/// The next step of the search for a device.
#[derive(Debug, Clone, Copy, PartialEq, Eq, Structural)]
pub enum SearchStep {
    /// Ask for the status of this device.
    Check(i32),
    /// Ask the driver to add a device, then start over.
    Add,
    /// Open this device.
    Open(i32),
    /// There is no device.
    Fail,
}

/// A search for an available device: every number once, and once more after one has been added.
#[derive(Debug)]
pub struct DeviceSearch {
    pub next: i32,
    pub added: bool,
}

/// The search and its next step after the status of the device that was checked last.
pub open spec fn search_next(s: DeviceSearch, status: i32) -> (DeviceSearch, SearchStep) {
    if status == EVDI_AVAILABLE {
        (s, SearchStep::Open(s.next))
    } else if s.next + 1 < DEVICE_COUNT {
        (
            DeviceSearch { next: (s.next + 1) as i32, ..s },
            SearchStep::Check((s.next + 1) as i32),
        )
    } else if !s.added {
        (DeviceSearch { next: 0, added: true }, SearchStep::Add)
    } else {
        (s, SearchStep::Fail)
    }
}

impl DeviceSearch {
    /// A number is left to check.
    pub open spec fn wf(self) -> bool {
        0 <= self.next < DEVICE_COUNT
    }

    /// A search that has checked nothing.
    pub fn new() -> (search: DeviceSearch)
        ensures
            search.wf(),
            search.next == 0,
            !search.added,
    {
        DeviceSearch { next: 0, added: false }
    }

    /// Takes the status of the device that was checked last.
    pub fn on_status(&mut self, status: i32) -> (step: SearchStep)
        requires
            old(self).wf(),
        ensures
            final(self).wf(),
            (*final(self), step) == search_next(*old(self), status),
    {
        if status == EVDI_AVAILABLE {
            SearchStep::Open(self.next)
        } else if self.next + 1 < DEVICE_COUNT {
            self.next += 1;
            SearchStep::Check(self.next)
        } else if !self.added {
            self.added = true;
            self.next = 0;
            SearchStep::Add
        } else {
            SearchStep::Fail
        }
    }
}

/// The first device from number `from` on whose status is that of an available one.
pub open spec fn first_available(statuses: Seq<i32>, from: int) -> Option<i32>
    decreases statuses.len() - from,
{
    if from >= statuses.len() {
        None
    } else if statuses[from] == EVDI_AVAILABLE {
        Some(from as i32)
    } else {
        first_available(statuses, from + 1)
    }
}

/// The device that a search ends with, when the devices have one status before a device is added
/// and another one after.
pub open spec fn search_end(s: DeviceSearch, before: Seq<i32>, after: Seq<i32>) -> Option<i32>
    decreases
        (if s.added {
            0int
        } else {
            1
        }),
        DEVICE_COUNT - s.next,
    when s.wf()
{
    let status = if s.added {
        after[s.next as int]
    } else {
        before[s.next as int]
    };
    match search_next(s, status).1 {
        SearchStep::Open(device) => Some(device),
        SearchStep::Fail => None,
        _ => search_end(search_next(s, status).0, before, after),
    }
}

proof fn search_end_from(s: DeviceSearch, before: Seq<i32>, after: Seq<i32>)
    requires
        s.wf(),
        before.len() == DEVICE_COUNT,
        after.len() == DEVICE_COUNT,
    ensures
        search_end(s, before, after) == (if s.added {
            first_available(after, s.next as int)
        } else {
            match first_available(before, s.next as int) {
                Some(d) => Some(d),
                None => first_available(after, 0),
            }
        }),
    decreases
        (if s.added {
            0int
        } else {
            1
        }),
        DEVICE_COUNT - s.next,
{
    let status = if s.added {
        after[s.next as int]
    } else {
        before[s.next as int]
    };
    let (next, step) = search_next(s, status);
    reveal_with_fuel(first_available, 2);
    if step is Check || step is Add {
        search_end_from(next, before, after);
    }
}

/// A search ends with the lowest device that is available, asks for a new device only if there is
/// none, and fails only if there is none then either.
pub proof fn search_takes_lowest(before: Seq<i32>, after: Seq<i32>)
    requires
        before.len() == DEVICE_COUNT,
        after.len() == DEVICE_COUNT,
    ensures
        search_end(DeviceSearch { next: 0, added: false }, before, after) == (
        match first_available(before, 0) {
            Some(d) => Some(d),
            None => first_available(after, 0),
        }),
{
    search_end_from(DeviceSearch { next: 0, added: false }, before, after);
}

// --- event loop -------------------------------------------------------------------------------

/// What the event loop does after a poll.
#[derive(Debug, Clone, Copy, PartialEq, Eq, Structural)]
pub enum PollAction {
    /// Poll again at once.
    Retry,
    /// Leave the loop.
    Stop,
    /// Let the driver deliver its events, then see whether pixels are to be requested.
    HandleEvents,
    /// Only see whether pixels are to be requested.
    Idle,
}

/// What to do after a poll.
pub open spec fn poll_action(rc: i32, interrupted: bool, readable: bool) -> PollAction {
    if rc < 0 {
        if interrupted {
            PollAction::Retry
        } else {
            PollAction::Stop
        }
    } else if rc > 0 && readable {
        PollAction::HandleEvents
    } else {
        PollAction::Idle
    }
}

/// A poll that failed stops the monitor unless it was only interrupted. Events are handled exactly
/// when there are some, and silence does no harm.
pub proof fn only_failed_polls_stop(rc: i32, interrupted: bool, readable: bool)
    ensures
        poll_action(rc, interrupted, readable) == PollAction::Stop <==> rc < 0 && !interrupted,
        poll_action(rc, interrupted, readable) == PollAction::Retry <==> rc < 0 && interrupted,
        poll_action(rc, interrupted, readable) == PollAction::HandleEvents <==> rc > 0 && readable,
{
}

/// Decides on the result of a poll: its return code, whether an interrupted call was the reason of
/// a failure, and whether the descriptor can be read.
pub fn after_poll(rc: i32, interrupted: bool, readable: bool) -> (action: PollAction)
    ensures
        action == (if rc < 0 {
            if interrupted {
                PollAction::Retry
            } else {
                PollAction::Stop
            }
        } else if rc > 0 && readable {
            PollAction::HandleEvents
        } else {
            PollAction::Idle
        }),
        action == poll_action(rc, interrupted, readable),
{
    if rc < 0 {
        if interrupted {
            PollAction::Retry
        } else {
            PollAction::Stop
        }
    } else if rc > 0 && readable {
        PollAction::HandleEvents
    } else {
        PollAction::Idle
    }
}

// --- monitor ----------------------------------------------------------------------------------

/// A framebuffer to register with the driver: four bytes a pixel, no padding.
#[derive(Debug, Clone, Copy, PartialEq, Eq, Structural)]
pub struct BufferLayout {
    pub id: i32,
    pub width: i32,
    pub height: i32,
    pub stride: i32,
    pub size: usize,
}

/// What the driver is to be told about a new mode.
#[derive(Debug, Clone, Copy, PartialEq, Eq, Structural)]
pub enum ModeChange {
    /// The mode has no pixels: nothing changes.
    Ignore,
    /// Drop the old buffer if there is one, then register a new one.
    Register { unregister: Option<i32>, buffer: BufferLayout },
}

/// A monitor's mode and the state of its buffer.
#[derive(Debug)]
pub struct VirtualMonitor {
    pub width: i32,
    pub height: i32,
    pub stride: i32,
    pub buffer_id: i32,
    pub registered: bool,
    pub pending_update: bool,
}

/// A buffer of four bytes a pixel can be described to the driver.
pub open spec fn mode_fits(width: int, height: int) -> bool {
    width * height * 4 <= i32::MAX
}

/// A monitor in a new mode, and what the driver is to be told.
pub open spec fn mode_next(m: VirtualMonitor, width: i32, height: i32) -> (VirtualMonitor, ModeChange) {
    if width <= 0 || height <= 0 {
        (m, ModeChange::Ignore)
    } else {
        (
            VirtualMonitor { width, height, stride: (width * 4) as i32, registered: true, ..m },
            ModeChange::Register {
                unregister: if m.registered {
                    Some(m.buffer_id)
                } else {
                    None
                },
                buffer: BufferLayout {
                    id: m.buffer_id,
                    width,
                    height,
                    stride: (width * 4) as i32,
                    size: (width * height * 4) as usize,
                },
            },
        )
    }
}

/// The buffers that a monitor has registered.
pub open spec fn own_buffers(m: VirtualMonitor) -> Set<i32> {
    if m.registered {
        set![m.buffer_id]
    } else {
        set![]
    }
}

/// The buffers that the driver knows after a change, from those that it knew before. A buffer that it
/// knows already cannot be registered, nor one that it does not know be dropped.
pub open spec fn driver_buffers(known: Set<i32>, change: ModeChange) -> Option<Set<i32>> {
    match change {
        ModeChange::Ignore => Some(known),
        ModeChange::Register { unregister, buffer } => {
            let left = match unregister {
                Some(id) => known.remove(id),
                None => known,
            };
            if (unregister matches Some(id) ==> known.contains(id)) && !left.contains(buffer.id) {
                Some(left.insert(buffer.id))
            } else {
                None
            }
        },
    }
}

/// The driver always knows just the buffer that the monitor has registered: the old one is dropped
/// before the new one is registered. The new one holds every pixel of the mode in four bytes, row
/// after row, and the monitor has the mode's size.
pub proof fn driver_knows_the_buffer(m: VirtualMonitor, width: i32, height: i32)
    requires
        width > 0 && height > 0 ==> mode_fits(width as int, height as int),
    ensures
        ({
            let (next, change) = mode_next(m, width, height);
            &&& driver_buffers(own_buffers(m), change) == Some(own_buffers(next))
            &&& change == ModeChange::Ignore <==> width <= 0 || height <= 0
            &&& change == ModeChange::Ignore ==> next == m
            &&& change matches ModeChange::Register { unregister, buffer } ==> {
                &&& next.width == width && next.height == height
                &&& next.pending_update == m.pending_update
                &&& buffer.width == width && buffer.height == height
                &&& buffer.stride == 4 * width && next.stride == 4 * width
                &&& buffer.size == buffer.stride * height
            }
        }),
{
    let (next, change) = mode_next(m, width, height);
    if width > 0 && height > 0 {
        assert(width * 4 <= width * height * 4 && width * height * 4 == (width * 4) * height && 0
            <= width * height * 4) by (nonlinear_arith)
            requires
                width > 0,
                height > 0,
        ;
        assert(own_buffers(m).remove(m.buffer_id).insert(m.buffer_id) =~= own_buffers(next));
        assert(own_buffers(m).insert(m.buffer_id) =~= own_buffers(next));
    }
}

impl VirtualMonitor {
    /// A registered buffer belongs to a mode with pixels and has no padding.
    pub open spec fn wf(self) -> bool {
        self.registered ==> self.width > 0 && self.height > 0 && mode_fits(
            self.width as int,
            self.height as int,
        ) && self.stride == self.width * 4
    }

    /// Size of the registered buffer in bytes.
    pub open spec fn buffer_size(self) -> int {
        self.width * self.height * 4
    }

    /// A monitor without a mode.
    pub fn new() -> (monitor: VirtualMonitor)
        ensures
            monitor.wf(),
            monitor == (VirtualMonitor {
                width: 0,
                height: 0,
                stride: 0,
                buffer_id: BUFFER_ID,
                registered: false,
                pending_update: false,
            }),
    {
        VirtualMonitor {
            width: 0,
            height: 0,
            stride: 0,
            buffer_id: BUFFER_ID,
            registered: false,
            pending_update: false,
        }
    }

    /// The compositor has set a mode.
    pub fn on_mode_changed(&mut self, width: i32, height: i32) -> (change: ModeChange)
        requires
            old(self).wf(),
            width > 0 && height > 0 ==> mode_fits(width as int, height as int),
        ensures
            final(self).wf(),
            if width <= 0 || height <= 0 {
                change == ModeChange::Ignore && *final(self) == *old(self)
            } else {
                &&& change == (ModeChange::Register {
                    unregister: if old(self).registered {
                        Some(old(self).buffer_id)
                    } else {
                        None
                    },
                    buffer: BufferLayout {
                        id: old(self).buffer_id,
                        width,
                        height,
                        stride: (width * 4) as i32,
                        size: (width * height * 4) as usize,
                    },
                })
                &&& *final(self) == (VirtualMonitor {
                    width,
                    height,
                    stride: (width * 4) as i32,
                    registered: true,
                    ..*old(self)
                })
            },
            (*final(self), change) == mode_next(*old(self), width, height),
    {
        if width <= 0 || height <= 0 {
            return ModeChange::Ignore;
        }
        proof {
            assert(width * 4 <= width * height * 4 && width * height <= width * height * 4)
                by (nonlinear_arith)
                requires
                    width > 0,
                    height > 0,
            ;
            assert(width * height > 0) by (nonlinear_arith)
                requires
                    width > 0,
                    height > 0,
            ;
        }
        let unregister: Option<i32> = if self.registered {
            Some(self.buffer_id)
        } else {
            None
        };
        self.registered = false;
        self.width = width;
        self.height = height;
        self.stride = width * 4;
        let buffer = BufferLayout {
            id: self.buffer_id,
            width,
            height,
            stride: self.stride,
            size: (width * height * 4) as usize,
        };
        self.registered = true;
        ModeChange::Register { unregister, buffer }
    }

    /// The driver says that buffer `buffer_id` has new pixels: whether they are to be fetched.
    pub fn wants_pixels(&self, buffer_id: i32) -> (wanted: bool)
        ensures
            wanted == (buffer_id == self.buffer_id && self.registered),
    {
        buffer_id == self.buffer_id && self.registered
    }

    /// Pixels have been fetched into the registered buffer: the frame to publish.
    pub fn on_update_ready(&mut self, bgra: &[u8]) -> (frame: RgbFrame)
        requires
            old(self).wf(),
            old(self).registered,
            bgra@.len() == old(self).buffer_size(),
        ensures
            final(self).wf(),
            *final(self) == (VirtualMonitor { pending_update: false, ..*old(self) }),
            frame.width == old(self).width,
            frame.height == old(self).height,
            frame.rgb@.len() == old(self).width * old(self).height * 3,
            forall|i: int|
                0 <= i < frame.rgb@.len() ==> #[trigger] frame.rgb@[i] == crate::pixels::rgb_byte(
                    bgra@,
                    old(self).width as int,
                    old(self).stride as int,
                    true,
                    i,
                ),
            crate::pixels::shows(
                bgra@,
                old(self).width as int,
                old(self).height as int,
                old(self).stride as int,
                crate::pixels::VideoFormat::Bgrx,
                frame.rgb@,
            ),
    {
        let w: usize = self.width as usize;
        let h: usize = self.height as usize;
        let stride: usize = self.stride as usize;
        let ghost len = bgra@.len() as int;
        proof {
            assert(w * h >= 0 && w * h * 3 <= w * h * 4) by (nonlinear_arith);
            assert((h - 1) * (w * 4) + w * 4 == w * h * 4) by (nonlinear_arith);
        }
        let mut rgb: Vec<u8> = vec![0u8; w * h * 3];
        let ghost blank = rgb@;
        bgra_to_rgb(bgra, w, h, stride, rgb.as_mut_slice());
        proof {
            assert forall|i: int| 0 <= i < rgb@.len() implies #[trigger] rgb@[i]
                == crate::pixels::rgb_byte(bgra@, w as int, stride as int, true, i) by {
                let y = i / (w * 3);
                row_of_byte(w as int, h as int, i);
                assert(y * (w * 4) + w * 4 == (y + 1) * (w * 4)) by (nonlinear_arith);
                lemma_mul_inequality(y + 1, h as int, w * 4);
                assert(h * (w * 4) == w * h * 4) by (nonlinear_arith);
            }
        }
        self.pending_update = false;
        RgbFrame { width: self.width as u32, height: self.height as u32, rgb }
    }

    /// The buffer for which pixels are to be requested now: the registered one, unless a request is
    /// still open.
    pub fn next_request(&mut self) -> (buffer: Option<i32>)
        requires
            old(self).wf(),
        ensures
            final(self).wf(),
            (*final(self), buffer) == request_next(*old(self)),
    {
        if self.registered && !self.pending_update {
            self.pending_update = true;
            Some(self.buffer_id)
        } else {
            None
        }
    }
}

/// The monitor after it was asked for its next request, and the buffer to request.
pub open spec fn request_next(m: VirtualMonitor) -> (VirtualMonitor, Option<i32>) {
    (
        VirtualMonitor { pending_update: m.pending_update || m.registered, ..m },
        if m.registered && !m.pending_update {
            Some(m.buffer_id)
        } else {
            None
        },
    )
}

/// At most one request is open: after one has been made there is no other until pixels have come,
/// and then there is.
pub proof fn one_request_at_a_time(m: VirtualMonitor)
    ensures
        request_next(m).1 is Some ==> request_next(request_next(m).0).1 is None,
        m.registered ==> request_next(
            VirtualMonitor { pending_update: false, ..request_next(m).0 },
        ).1 == Some(m.buffer_id),
{
}

/// A search ends with a device that is available, the lowest one: the first among those that were
/// there, or among those that are there after one was added where none was. It fails only where there
/// is none then either.
pub proof fn search_ends_with_available_device(before: Seq<i32>, after: Seq<i32>, i: int)
    requires
        before.len() == 16,
        after.len() == 16,
    ensures
        ({
            let end = search_end(DeviceSearch { next: 0, added: false }, before, after);
            &&& 0 <= i < 16 && before[i] == 0 && (forall|j: int|
                0 <= j < i ==> #[trigger] before[j] != 0) ==> end == Some(i as i32)
            &&& (forall|j: int| 0 <= j < 16 ==> #[trigger] before[j] != 0) && 0 <= i < 16 && after[i]
                == 0 && (forall|j: int| 0 <= j < i ==> #[trigger] after[j] != 0) ==> end == Some(
                i as i32,
            )
            &&& (forall|j: int| 0 <= j < 16 ==> #[trigger] before[j] != 0) && (forall|j: int|
                0 <= j < 16 ==> #[trigger] after[j] != 0) ==> end is None
        }),
{
    search_takes_lowest(before, after);
    first_available_is_first(before, 0);
    first_available_is_first(after, 0);
}

proof fn first_available_is_first(statuses: Seq<i32>, from: int)
    requires
        0 <= from,
        statuses.len() <= i32::MAX,
    ensures
        match first_available(statuses, from) {
            Some(d) => from <= d < statuses.len() && statuses[d as int] == 0 && forall|j: int|
                from <= j < d ==> #[trigger] statuses[j] != 0,
            None => forall|j: int| from <= j < statuses.len() ==> #[trigger] statuses[j] != 0,
        },
    decreases statuses.len() - from,
{
    if from < statuses.len() && statuses[from] != EVDI_AVAILABLE {
        first_available_is_first(statuses, from + 1);
    }
}

/// Pixels are asked for exactly while a buffer is registered and no answer is outstanding.
pub proof fn request_needs_buffer(m: VirtualMonitor)
    ensures
        request_next(m).1 is Some <==> m.registered && !m.pending_update,
        request_next(m).1 matches Some(id) ==> id == m.buffer_id && request_next(
            m,
        ).0.pending_update,
        request_next(m).1 is None ==> request_next(m).0 == m,
{
}

} // verus!
