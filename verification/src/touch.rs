//! The virtual touchscreen: from snapshots of the fingers that are down to Linux multi-touch
//! (type B) events.

use vstd::prelude::*;

use crate::pen::{keys_after, keys_after_all};

verus! {

/// Largest value of the position axes.
pub const ABS_MAX: i32 = 0xFFFF;

/// Number of fingers that can be tracked.
pub const MAX_SLOTS: i32 = 10;

pub const EV_SYN: u16 = 0x00;
pub const EV_KEY: u16 = 0x01;
pub const EV_ABS: u16 = 0x03;
pub const SYN_REPORT: u16 = 0;
pub const ABS_X: u16 = 0x00;
pub const ABS_Y: u16 = 0x01;
pub const ABS_PRESSURE: u16 = 0x18;
pub const ABS_MT_SLOT: u16 = 0x2f;
pub const ABS_MT_POSITION_X: u16 = 0x35;
pub const ABS_MT_POSITION_Y: u16 = 0x36;
pub const ABS_MT_TRACKING_ID: u16 = 0x39;
pub const BTN_TOOL_PEN: u16 = 0x140;
pub const BTN_TOOL_RUBBER: u16 = 0x141;
pub const BTN_TOOL_FINGER: u16 = 0x145;
pub const BTN_TOUCH: u16 = 0x14a;
pub const BTN_STYLUS: u16 = 0x14b;

/// One Linux input event, without its time stamp.
#[derive(Debug, Clone, Copy, PartialEq, Eq, Structural)]
pub struct InputEvent {
    pub kind: u16,
    pub code: u16,
    pub value: i32,
}

/// An input event.
pub open spec fn ev(kind: u16, code: u16, value: i32) -> InputEvent {
    InputEvent { kind, code, value }
}

/// An input event.
pub fn event(kind: u16, code: u16, value: i32) -> (e: InputEvent)
    ensures
        e == ev(kind, code, value),
{
    InputEvent { kind, code, value }
}

/// The event that closes a batch.
pub open spec fn report() -> InputEvent {
    ev(EV_SYN, SYN_REPORT, 0)
}

/// One finger that is down, with its position in units of the device's axes.
#[derive(Debug, Clone, Copy, PartialEq, Eq, Structural)]
pub struct TouchContact {
    pub id: u32,
    pub x: i32,
    pub y: i32,
}

// --- what a snapshot does ---------------------------------------------------------------------

/// The state of the touchscreen: which finger each slot holds, the slot that the last event was
/// about (-1 before the first), and whether a finger was down.
pub struct TouchState {
    pub table: Seq<Option<u32>>,
    pub active: i32,
    pub pressed: bool,
}

/// State and events in the course of a snapshot.
pub struct Walk {
    pub table: Seq<Option<u32>>,
    pub active: i32,
    pub events: Seq<InputEvent>,
}

/// No finger holds two slots.
pub open spec fn table_wf(table: Seq<Option<u32>>) -> bool {
    table.len() == MAX_SLOTS && forall|s: int, t: int|
        0 <= s < t < table.len() && table[s] is Some ==> #[trigger] table[s] != #[trigger] table[t]
}

/// A finger with this id is down.
pub open spec fn has_id(points: Seq<TouchContact>, id: u32) -> bool {
    exists|i: int| 0 <= i < points.len() && (#[trigger] points[i]).id == id
}

/// The first slot from `from` on that holds `entry`, or the number of slots.
pub open spec fn slot_from(table: Seq<Option<u32>>, entry: Option<u32>, from: int) -> int
    decreases table.len() - from,
{
    if from >= table.len() {
        table.len() as int
    } else if table[from] == entry {
        from
    } else {
        slot_from(table, entry, from + 1)
    }
}

/// The slot that holds the finger, or the number of slots.
pub open spec fn slot_of(table: Seq<Option<u32>>, id: u32) -> int {
    slot_from(table, Some(id), 0)
}

/// The first free slot, or the number of slots.
pub open spec fn free_slot(table: Seq<Option<u32>>) -> int {
    slot_from(table, None, 0)
}

/// The tracking id that announces a finger: its id as a signed number. -1 announces a release.
pub open spec fn tracking_id(id: u32) -> i32 {
    if id <= i32::MAX {
        id as i32
    } else {
        (id - 0x1_0000_0000) as i32
    }
}

/// Makes `slot` the one that events are about.
pub open spec fn select(w: Walk, slot: int) -> Walk {
    if w.active == slot {
        w
    } else {
        Walk {
            active: slot as i32,
            events: w.events.push(ev(EV_ABS, ABS_MT_SLOT, slot as i32)),
            ..w
        }
    }
}

/// Releases what the first `n` slots hold and is not down any more, in the order of the slots.
pub open spec fn released(w: Walk, points: Seq<TouchContact>, n: int) -> Walk
    decreases n,
{
    if n <= 0 {
        w
    } else {
        let v = released(w, points, n - 1);
        match v.table[n - 1] {
            Some(id) => if has_id(points, id) {
                v
            } else {
                let u = select(v, n - 1);
                Walk {
                    table: u.table.update(n - 1, None),
                    events: u.events.push(ev(EV_ABS, ABS_MT_TRACKING_ID, -1i32)),
                    ..u
                }
            },
            None => v,
        }
    }
}

/// Reports the position of a finger in the current slot.
pub open spec fn positioned(w: Walk, p: TouchContact) -> Walk {
    Walk {
        events: w.events.push(ev(EV_ABS, ABS_MT_POSITION_X, p.x)).push(
            ev(EV_ABS, ABS_MT_POSITION_Y, p.y),
        ),
        ..w
    }
}

/// Reports one finger. A new one gets the first free slot; if there is none, it is dropped.
pub open spec fn placed_one(w: Walk, p: TouchContact) -> Walk {
    let held = slot_of(w.table, p.id);
    let free = free_slot(w.table);
    if held < w.table.len() {
        positioned(select(w, held), p)
    } else if free < w.table.len() {
        let v = select(Walk { table: w.table.update(free, Some(p.id)), ..w }, free);
        positioned(
            Walk {
                events: v.events.push(ev(EV_ABS, ABS_MT_TRACKING_ID, tracking_id(p.id))),
                ..v
            },
            p,
        )
    } else {
        w
    }
}

/// Reports the first `n` fingers in their order.
pub open spec fn placed(w: Walk, points: Seq<TouchContact>, n: int) -> Walk
    decreases n,
{
    if n <= 0 {
        w
    } else {
        placed_one(placed(w, points, n - 1), points[n - 1])
    }
}

/// Releases, then reports.
pub open spec fn touch_walk(st: TouchState, points: Seq<TouchContact>) -> Walk {
    placed(
        released(
            Walk { table: st.table, active: st.active, events: seq![] },
            points,
            st.table.len() as int,
        ),
        points,
        points.len() as int,
    )
}

/// The position of the first finger on the single-touch axes.
pub open spec fn single_touch(points: Seq<TouchContact>) -> Seq<InputEvent> {
    if points.len() > 0 {
        seq![ev(EV_ABS, ABS_X, points[0].x), ev(EV_ABS, ABS_Y, points[0].y)]
    } else {
        seq![]
    }
}

/// The touch buttons, when the first finger comes down or the last one goes up.
pub open spec fn touch_buttons(was: bool, is: bool) -> Seq<InputEvent> {
    if was != is {
        let v: i32 = if is {
            1
        } else {
            0
        };
        seq![ev(EV_KEY, BTN_TOUCH, v), ev(EV_KEY, BTN_TOOL_FINGER, v)]
    } else {
        seq![]
    }
}

/// The events that a snapshot causes.
pub open spec fn touch_events(st: TouchState, points: Seq<TouchContact>) -> Seq<InputEvent> {
    touch_walk(st, points).events + single_touch(points) + touch_buttons(
        st.pressed,
        points.len() > 0,
    ) + seq![report()]
}

/// The state after a snapshot.
pub open spec fn touch_next(st: TouchState, points: Seq<TouchContact>) -> TouchState {
    let w = touch_walk(st, points);
    TouchState { table: w.table, active: w.active, pressed: points.len() > 0 }
}

/// The touchscreen.
#[derive(Debug)]
pub struct TouchDev {
    slots: Vec<Option<u32>>,
    last_any_pressed: bool,
    last_active_slot: i32,
}

impl View for TouchDev {
    type V = TouchState;

    closed spec fn view(&self) -> TouchState {
        TouchState {
            table: self.slots@,
            active: self.last_active_slot,
            pressed: self.last_any_pressed,
        }
    }
}

/// A touchscreen that has just been made.
pub open spec fn touch_fresh() -> TouchState {
    TouchState {
        table: Seq::new(MAX_SLOTS as nat, |i: int| None::<u32>),
        active: -1i32,
        pressed: false,
    }
}

/// A state that a touchscreen can be in.
pub open spec fn touch_wf(st: TouchState) -> bool {
    table_wf(st.table)
}

impl TouchDev {
    /// A touchscreen without fingers.
    pub fn new() -> (dev: TouchDev)
        ensures
            touch_wf(dev@),
            dev@ == touch_fresh(),
    {
        let mut slots: Vec<Option<u32>> = Vec::new();
        let mut i: i32 = 0;
        while i < MAX_SLOTS
            invariant
                0 <= i <= MAX_SLOTS,
                slots@ == Seq::new(i as nat, |j: int| None::<u32>),
            decreases MAX_SLOTS - i,
        {
            slots.push(None);
            i += 1;
            assert(slots@ =~= Seq::new(i as nat, |j: int| None::<u32>));
        }
        assert(slots@ =~= touch_fresh().table);
        TouchDev { slots, last_any_pressed: false, last_active_slot: -1 }
    }

    /// Takes a snapshot of the fingers that are down and returns the events that tell the kernel.
    /// A finger that was down and is missing from the snapshot is released.
    pub fn send_touches(&mut self, points: &[TouchContact]) -> (events: Vec<InputEvent>)
        requires
            touch_wf(old(self)@),
        ensures
            touch_wf(final(self)@),
            events@ == touch_events(old(self)@, points@),
            final(self)@ == touch_next(old(self)@, points@),
    {
        let ghost st = self@;
        let ghost w0 = Walk { table: st.table, active: st.active, events: seq![] };
        let mut events: Vec<InputEvent> = Vec::new();
        let count: usize = self.slots.len();
        let mut s: usize = 0;
        while s < count
            invariant
                s <= count,
                count == self.slots@.len(),
                count == MAX_SLOTS,
                table_wf(self.slots@),
                self.last_any_pressed == st.pressed,
                (Walk {
                    table: self.slots@,
                    active: self.last_active_slot,
                    events: events@,
                }) == released(w0, points@, s as int),
            decreases count - s,
        {
            match self.slots[s] {
                Some(id) => {
                    if !is_down(points, id) {
                        self.activate(s as i32, &mut events);
                        let ghost table = self.slots@;
                        self.slots[s] = None;
                        assert(table_wf(self.slots@)) by {
                            assert(self.slots@ == table.update(s as int, None));
                        }
                        events.push(event(EV_ABS, ABS_MT_TRACKING_ID, -1));
                    }
                },
                None => {},
            }
            s += 1;
        }
        let ghost w1 = released(w0, points@, st.table.len() as int);
        let mut i: usize = 0;
        while i < points.len()
            invariant
                i <= points@.len(),
                table_wf(self.slots@),
                self.last_any_pressed == st.pressed,
                (Walk {
                    table: self.slots@,
                    active: self.last_active_slot,
                    events: events@,
                }) == placed(w1, points@, i as int),
            decreases points@.len() - i,
        {
            self.place(points[i], &mut events);
            i += 1;
        }
        let ghost walk = touch_walk(st, points@);
        if points.len() > 0 {
            events.push(event(EV_ABS, ABS_X, points[0].x));
            events.push(event(EV_ABS, ABS_Y, points[0].y));
        }
        assert(events@ =~= walk.events + single_touch(points@));
        let any_pressed = points.len() > 0;
        if any_pressed != self.last_any_pressed {
            let v: i32 = if any_pressed {
                1
            } else {
                0
            };
            events.push(event(EV_KEY, BTN_TOUCH, v));
            events.push(event(EV_KEY, BTN_TOOL_FINGER, v));
            self.last_any_pressed = any_pressed;
        }
        assert(events@ =~= walk.events + single_touch(points@) + touch_buttons(
            st.pressed,
            points@.len() > 0,
        ));
        events.push(event(EV_SYN, SYN_REPORT, 0));
        assert(events@ =~= touch_events(st, points@));
        events
    }

    /// Makes `slot` the one that events are about.
    fn activate(&mut self, slot: i32, events: &mut Vec<InputEvent>)
        ensures
            final(self).slots == old(self).slots,
            final(self).last_any_pressed == old(self).last_any_pressed,
            (Walk {
                table: final(self).slots@,
                active: final(self).last_active_slot,
                events: final(events)@,
            }) == select(
                Walk {
                    table: old(self).slots@,
                    active: old(self).last_active_slot,
                    events: old(events)@,
                },
                slot as int,
            ),
    {
        if self.last_active_slot != slot {
            events.push(event(EV_ABS, ABS_MT_SLOT, slot));
            self.last_active_slot = slot;
        }
    }

    /// Reports one finger.
    fn place(&mut self, p: TouchContact, events: &mut Vec<InputEvent>)
        requires
            table_wf(old(self).slots@),
        ensures
            table_wf(final(self).slots@),
            final(self).last_any_pressed == old(self).last_any_pressed,
            (Walk {
                table: final(self).slots@,
                active: final(self).last_active_slot,
                events: final(events)@,
            }) == placed_one(
                Walk {
                    table: old(self).slots@,
                    active: old(self).last_active_slot,
                    events: old(events)@,
                },
                p,
            ),
    {
        let ghost table = self.slots@;
        let held: usize = find_slot(self.slots.as_slice(), Some(p.id));
        if held < self.slots.len() {
            self.activate(held as i32, events);
        } else {
            let free: usize = find_slot(self.slots.as_slice(), None);
            if free >= self.slots.len() {
                return ;
            }
            self.slots[free] = Some(p.id);
            proof {
                slot_from_is_first(table, Some(p.id), 0);
                assert(self.slots@ == table.update(free as int, Some(p.id)));
                assert(table_wf(self.slots@));
            }
            self.activate(free as i32, events);
            let tracking: i32 = if p.id <= 0x7fff_ffff {
                p.id as i32
            } else {
                (p.id as i64 - 0x1_0000_0000) as i32
            };
            events.push(event(EV_ABS, ABS_MT_TRACKING_ID, tracking));
        }
        events.push(event(EV_ABS, ABS_MT_POSITION_X, p.x));
        events.push(event(EV_ABS, ABS_MT_POSITION_Y, p.y));
    }
}

/// Whether a finger with this id is down.
fn is_down(points: &[TouchContact], id: u32) -> (down: bool)
    ensures
        down == has_id(points@, id),
{
    let mut i: usize = 0;
    while i < points.len()
        invariant
            i <= points@.len(),
            forall|j: int| 0 <= j < i ==> (#[trigger] points@[j]).id != id,
        decreases points@.len() - i,
    {
        if points[i].id == id {
            assert(points@[i as int].id == id);
            return true;
        }
        i += 1;
    }
    false
}

/// The first slot that holds `entry`, or the number of slots.
fn find_slot(table: &[Option<u32>], entry: Option<u32>) -> (slot: usize)
    ensures
        slot == slot_from(table@, entry, 0),
        slot <= table@.len(),
{
    let mut s: usize = 0;
    while s < table.len()
        invariant
            s <= table@.len(),
            slot_from(table@, entry, 0) == slot_from(table@, entry, s as int),
        decreases table@.len() - s,
    {
        if table[s] == entry {
            return s;
        }
        s += 1;
    }
    s
}

/// `slot_from` is the first slot with the entry.
pub proof fn slot_from_is_first(table: Seq<Option<u32>>, entry: Option<u32>, from: int)
    requires
        0 <= from <= table.len(),
    ensures
        from <= slot_from(table, entry, from) <= table.len(),
        slot_from(table, entry, from) < table.len() ==> table[slot_from(table, entry, from)]
            == entry,
        forall|s: int| from <= s < slot_from(table, entry, from) ==> table[s] != entry,
    decreases table.len() - from,
{
    if from < table.len() && table[from] != entry {
        slot_from_is_first(table, entry, from + 1);
    }
}

// --- what holds of every snapshot -------------------------------------------------------------

/// The finger holds a slot.
pub open spec fn has_slot(table: Seq<Option<u32>>, id: u32) -> bool {
    exists|s: int| 0 <= s < table.len() && #[trigger] table[s] == Some(id)
}

/// Every slot is taken.
pub open spec fn full(table: Seq<Option<u32>>) -> bool {
    forall|s: int| 0 <= s < table.len() ==> #[trigger] table[s] is Some
}

/// Releasing empties exactly the slots of the fingers that are not down any more.
proof fn released_table(w: Walk, points: Seq<TouchContact>, n: int)
    requires
        0 <= n <= w.table.len(),
    ensures
        released(w, points, n).table.len() == w.table.len(),
        forall|s: int|
            0 <= s < w.table.len() ==> #[trigger] released(w, points, n).table[s] == (if s < n
                && w.table[s] is Some && !has_id(points, w.table[s]->0) {
                None
            } else {
                w.table[s]
            }),
    decreases n,
{
    if n > 0 {
        released_table(w, points, n - 1);
    }
}

/// What holds while fingers are reported, `base` being the table before the first of them.
spec fn placing(
    base: Seq<Option<u32>>,
    table: Seq<Option<u32>>,
    points: Seq<TouchContact>,
    n: int,
) -> bool {
    &&& table_wf(table)
    &&& table.len() == base.len()
    &&& forall|s: int|
        0 <= s < table.len() && table[s] is Some ==> has_id(points, (#[trigger] table[s])->0)
    &&& forall|s: int| 0 <= s < table.len() && base[s] is Some ==> #[trigger] table[s] == base[s]
    &&& forall|i: int|
        0 <= i < n ==> has_slot(table, (#[trigger] points[i]).id) || full(table)
}

proof fn placed_table(w: Walk, points: Seq<TouchContact>, n: int)
    requires
        0 <= n <= points.len(),
        placing(w.table, w.table, points, 0),
    ensures
        placing(w.table, placed(w, points, n).table, points, n),
    decreases n,
{
    if n > 0 {
        placed_table(w, points, n - 1);
        let v = placed(w, points, n - 1);
        let p = points[n - 1];
        let u = placed_one(v, p);
        assert(points[n - 1].id == p.id);
        assert(has_id(points, p.id));
        slot_from_is_first(v.table, Some(p.id), 0);
        slot_from_is_first(v.table, None, 0);
        let held = slot_of(v.table, p.id);
        let free = free_slot(v.table);
        if held < v.table.len() {
            assert(u.table == v.table);
            assert(has_slot(u.table, p.id)) by {
                assert(u.table[held] == Some(p.id));
            }
        } else if free < v.table.len() {
            assert(u.table == v.table.update(free, Some(p.id)));
            assert(u.table[free] == Some(p.id));
            assert(table_wf(u.table));
            assert forall|i: int| 0 <= i < n implies has_slot(u.table, (#[trigger] points[i]).id)
                || full(u.table) by {
                if i < n - 1 {
                    assert(has_slot(v.table, points[i].id) || full(v.table));
                    if has_slot(v.table, points[i].id) {
                        let s = choose|s: int|
                            0 <= s < v.table.len() && #[trigger] v.table[s] == Some(points[i].id);
                        assert(u.table[s] == Some(points[i].id));
                    } else {
                        assert(v.table[free] is Some);
                    }
                }
            }
        } else {
            assert(u.table == v.table);
            assert(full(u.table));
        }
    }
}

/// A snapshot decides which fingers are tracked: only those that are down, each of them unless the
/// slots have run out, and a finger that stays down keeps its slot.
pub proof fn snapshot_tracks_fingers(st: TouchState, points: Seq<TouchContact>)
    requires
        touch_wf(st),
    ensures
        ({
            let table = touch_next(st, points).table;
            &&& table_wf(table)
            &&& forall|s: int|
                0 <= s < table.len() && table[s] is Some ==> has_id(
                    points,
                    (#[trigger] table[s])->0,
                )
            &&& forall|i: int|
                0 <= i < points.len() ==> has_slot(table, (#[trigger] points[i]).id) || full(table)
            &&& forall|s: int|
                0 <= s < table.len() && st.table[s] is Some && has_id(points, st.table[s]->0)
                    ==> #[trigger] table[s] == st.table[s]
        }),
{
    let w0 = Walk { table: st.table, active: st.active, events: seq![] };
    let w1 = released(w0, points, st.table.len() as int);
    released_table(w0, points, st.table.len() as int);
    assert(table_wf(w1.table));
    placed_table(w1, points, points.len() as int);
    let table = touch_next(st, points).table;
    assert forall|s: int|
        0 <= s < table.len() && st.table[s] is Some && has_id(
            points,
            st.table[s]->0,
        ) implies #[trigger] table[s] == st.table[s] by {
        assert(w1.table[s] == st.table[s]);
    }
}

/// The ids of the fingers that are down.
pub open spec fn ids_of(points: Seq<TouchContact>) -> Set<u32> {
    points.map_values(|p: TouchContact| p.id).to_set()
}

/// The ids of a snapshot are those that `has_id` speaks of.
proof fn ids_are_present(points: Seq<TouchContact>)
    ensures
        ids_of(points).finite(),
        forall|id: u32| #[trigger] ids_of(points).contains(id) <==> has_id(points, id),
{
    let ids = points.map_values(|p: TouchContact| p.id);
    vstd::seq_lib::seq_to_set_is_finite(ids);
    assert forall|id: u32| #[trigger] ids_of(points).contains(id) <==> has_id(points, id) by {
        if has_id(points, id) {
            let i = choose|i: int| 0 <= i < points.len() && (#[trigger] points[i]).id == id;
            assert(ids[i] == id);
        }
        if ids_of(points).contains(id) {
            let i = choose|i: int| 0 <= i < ids.len() && ids[i] == id;
            assert(points[i].id == id);
        }
    }
}

/// As long as no more different fingers are down than there are slots, each of them has one.
pub proof fn fingers_fit(st: TouchState, points: Seq<TouchContact>)
    requires
        touch_wf(st),
        ids_of(points).len() <= MAX_SLOTS,
    ensures
        forall|id: u32|
            has_id(points, id) <==> #[trigger] has_slot(touch_next(st, points).table, id),
{
    let table = touch_next(st, points).table;
    snapshot_tracks_fingers(st, points);
    ids_are_present(points);
    assert forall|id: u32| has_id(points, id) <==> #[trigger] has_slot(table, id) by {
        if has_slot(table, id) {
            let s = choose|s: int| 0 <= s < table.len() && #[trigger] table[s] == Some(id);
            assert(has_id(points, table[s]->0));
        }
        if has_id(points, id) && !has_slot(table, id) {
            let i = choose|i: int| 0 <= i < points.len() && (#[trigger] points[i]).id == id;
            assert(has_slot(table, points[i].id) || full(table));
            // All slots are taken by fingers that are down, and this one is none of them.
            let held = Seq::new(table.len(), |s: int| table[s]->0);
            assert forall|s: int, t: int| 0 <= s < t < held.len() implies held[s] != held[t] by {
                assert(table[s] is Some && table[t] is Some);
                assert(table[s] != table[t]);
            }
            assert(held.no_duplicates());
            held.unique_seq_to_set();
            vstd::seq_lib::seq_to_set_is_finite(held);
            assert forall|x: u32| held.to_set().contains(x) implies ids_of(points).remove(
                id,
            ).contains(x) by {
                let s = choose|s: int| 0 <= s < held.len() && held[s] == x;
                assert(table[s] == Some(x));
                assert(has_id(points, table[s]->0));
            }
            vstd::set_lib::lemma_len_subset(held.to_set(), ids_of(points).remove(id));
        }
    }
}

/// An empty snapshot releases every finger.
pub proof fn empty_snapshot_releases_all(st: TouchState)
    requires
        touch_wf(st),
    ensures
        touch_next(st, seq![]).table == Seq::new(MAX_SLOTS as nat, |i: int| None::<u32>),
        !touch_next(st, seq![]).pressed,
{
    snapshot_tracks_fingers(st, seq![]);
    let table = touch_next(st, seq![]).table;
    assert forall|s: int| 0 <= s < table.len() implies #[trigger] table[s] is None by {}
    assert(table =~= Seq::new(MAX_SLOTS as nat, |i: int| None::<u32>));
}

/// The events of a walk are all about axes.
spec fn on_axes_only(events: Seq<InputEvent>) -> bool {
    forall|i: int| 0 <= i < events.len() ==> (#[trigger] events[i]).kind == EV_ABS
}

proof fn released_on_axes(w: Walk, points: Seq<TouchContact>, n: int)
    requires
        on_axes_only(w.events),
    ensures
        on_axes_only(released(w, points, n).events),
    decreases n,
{
    if n > 0 {
        released_on_axes(w, points, n - 1);
    }
}

proof fn placed_on_axes(w: Walk, points: Seq<TouchContact>, n: int)
    requires
        on_axes_only(w.events),
    ensures
        on_axes_only(placed(w, points, n).events),
    decreases n,
{
    if n > 0 {
        placed_on_axes(w, points, n - 1);
    }
}

/// Nothing passes a filter that no event passes, and everything one that all pass.
proof fn filter_all_or_none(events: Seq<InputEvent>, keep: bool, pred: spec_fn(InputEvent) -> bool)
    requires
        forall|i: int| 0 <= i < events.len() ==> pred(#[trigger] events[i]) == keep,
    ensures
        events.filter(pred) == (if keep {
            events
        } else {
            seq![]
        }),
    decreases events.len(),
{
    reveal(Seq::filter);
    if events.len() > 0 {
        filter_all_or_none(events.drop_last(), keep, pred);
        assert(pred(events[events.len() - 1]) == keep);
        if keep {
            assert(events =~= events.drop_last().push(events.last()));
        }
    }
}

/// Every snapshot closes with a report, which makes the kernel deliver it as one batch. Besides the
/// axes, a batch holds nothing but that one report, and before it the two touch buttons exactly when
/// a finger is down and none was before, or the other way round.
pub proof fn touch_batch_ends_with_report(st: TouchState, points: Seq<TouchContact>)
    ensures
        touch_events(st, points).len() > 0,
        touch_events(st, points).last() == report(),
        touch_events(st, points).filter(|e: InputEvent| e.kind != EV_ABS) == touch_buttons(
            st.pressed,
            points.len() > 0,
        ) + seq![report()],
        touch_next(st, points).pressed == (points.len() > 0),
{
    let pred = |e: InputEvent| e.kind != EV_ABS;
    let w0 = Walk { table: st.table, active: st.active, events: seq![] };
    released_on_axes(w0, points, st.table.len() as int);
    placed_on_axes(
        released(w0, points, st.table.len() as int),
        points,
        points.len() as int,
    );
    let walk = touch_walk(st, points).events;
    let a = single_touch(points);
    let b = touch_buttons(st.pressed, points.len() > 0);
    let c = seq![report()];
    filter_all_or_none(walk, false, pred);
    filter_all_or_none(a, false, pred);
    filter_all_or_none(b, true, pred);
    filter_all_or_none(c, true, pred);
    Seq::filter_distributes_over_add(walk + a + b, c, pred);
    Seq::filter_distributes_over_add(walk + a, b, pred);
    Seq::filter_distributes_over_add(walk, a, pred);
    assert(touch_events(st, points).filter(pred) =~= b + c);
}

/// The values of a device's axes after a list of events.
pub open spec fn axes_after(axes: Map<u16, i32>, events: Seq<InputEvent>) -> Map<u16, i32>
    decreases events.len(),
{
    if events.len() == 0 {
        axes
    } else {
        let before = axes_after(axes, events.drop_last());
        if events.last().kind == EV_ABS {
            before.insert(events.last().code, events.last().value)
        } else {
            before
        }
    }
}

// --- what the kernel makes of the events -------------------------------------------------------

/// The multi-touch state that the kernel keeps for a device: the current slot, the tracking id of
/// each slot in use, and the last position reported in each slot.
pub struct MtState {
    pub slot: int,
    pub tracking: Map<int, i32>,
    pub xs: Map<int, i32>,
    pub ys: Map<int, i32>,
}

/// The effect of one event.
pub open spec fn mt_apply(m: MtState, e: InputEvent) -> MtState {
    if e.kind != EV_ABS {
        m
    } else if e.code == ABS_MT_SLOT {
        MtState { slot: e.value as int, ..m }
    } else if e.code == ABS_MT_TRACKING_ID {
        MtState {
            tracking: if e.value == -1 {
                m.tracking.remove(m.slot)
            } else {
                m.tracking.insert(m.slot, e.value)
            },
            ..m
        }
    } else if e.code == ABS_MT_POSITION_X {
        MtState { xs: m.xs.insert(m.slot, e.value), ..m }
    } else if e.code == ABS_MT_POSITION_Y {
        MtState { ys: m.ys.insert(m.slot, e.value), ..m }
    } else {
        m
    }
}

/// The effect of a list of events.
pub open spec fn mt_apply_all(m: MtState, events: Seq<InputEvent>) -> MtState
    decreases events.len(),
{
    if events.len() == 0 {
        m
    } else {
        mt_apply(mt_apply_all(m, events.drop_last()), events.last())
    }
}

/// The kernel tracks exactly the fingers of the table, under their tracking ids, and agrees on the
/// current slot.
pub open spec fn in_step(table: Seq<Option<u32>>, active: i32, m: MtState) -> bool {
    &&& active == -1 || active == m.slot
    &&& forall|s: int|
        #[trigger] m.tracking.contains_key(s) <==> 0 <= s < table.len() && table[s] is Some
    &&& forall|s: int|
        0 <= s < table.len() && table[s] is Some ==> #[trigger] m.tracking[s] == tracking_id(
            table[s]->0,
        )
}

/// One more event.
proof fn mt_push(m: MtState, events: Seq<InputEvent>, e: InputEvent)
    ensures
        mt_apply_all(m, events.push(e)) == mt_apply(mt_apply_all(m, events), e),
{
    assert(events.push(e).drop_last() =~= events);
}

/// After a slot has been selected the kernel's current slot is that slot, and nothing else has
/// changed.
proof fn mt_select(m: MtState, w: Walk, slot: int)
    requires
        0 <= slot < MAX_SLOTS,
        w.active == -1 || w.active == mt_apply_all(m, w.events).slot,
    ensures
        mt_apply_all(m, select(w, slot).events) == (MtState {
            slot,
            ..mt_apply_all(m, w.events)
        }),
        select(w, slot).active == slot,
        select(w, slot).table == w.table,
{
    mt_push(m, w.events, ev(EV_ABS, ABS_MT_SLOT, slot as i32));
}

proof fn mt_released(m: MtState, w: Walk, points: Seq<TouchContact>, n: int)
    requires
        0 <= n <= w.table.len(),
        table_wf(w.table),
        w.events.len() == 0,
        in_step(w.table, w.active, m),
    ensures
        ({
            let v = released(w, points, n);
            in_step(v.table, v.active, mt_apply_all(m, v.events))
        }),
    decreases n,
{
    released_table(w, points, n);
    if n > 0 {
        mt_released(m, w, points, n - 1);
        released_table(w, points, n - 1);
        let v = released(w, points, n - 1);
        if let Some(id) = v.table[n - 1] {
            if !has_id(points, id) {
                let u = select(v, n - 1);
                mt_select(m, v, n - 1);
                mt_push(m, u.events, ev(EV_ABS, ABS_MT_TRACKING_ID, -1i32));
            }
        }
    }
}

/// `points[i]` is the last entry of its finger among the first `n`.
pub open spec fn last_entry(points: Seq<TouchContact>, i: int, n: int) -> bool {
    0 <= i < n && forall|j: int| i < j < n ==> (#[trigger] points[j]).id != points[i].id
}

/// The kernel holds the reported position of every finger among the first `n` that has a slot.
pub open spec fn positions_in_step(
    table: Seq<Option<u32>>,
    m: MtState,
    points: Seq<TouchContact>,
    n: int,
) -> bool {
    forall|i: int, s: int|
        #![trigger points[i], table[s]]
        last_entry(points, i, n) && 0 <= s < table.len() && table[s] == Some(points[i].id) ==> {
            &&& m.xs.contains_key(s) && m.xs[s] == points[i].x
            &&& m.ys.contains_key(s) && m.ys[s] == points[i].y
        }
}

proof fn mt_placed(m: MtState, w: Walk, points: Seq<TouchContact>, n: int)
    requires
        0 <= n <= points.len(),
        placing(w.table, w.table, points, 0),
        in_step(w.table, w.active, mt_apply_all(m, w.events)),
        forall|i: int| 0 <= i < points.len() ==> (#[trigger] points[i]).id != u32::MAX,
    ensures
        ({
            let v = placed(w, points, n);
            let k = mt_apply_all(m, v.events);
            in_step(v.table, v.active, k) && positions_in_step(v.table, k, points, n)
        }),
    decreases n,
{
    if n > 0 {
        mt_placed(m, w, points, n - 1);
        placed_table(w, points, n - 1);
        placed_table(w, points, n);
        let v = placed(w, points, n - 1);
        let p = points[n - 1];
        let u = placed(w, points, n);
        let kv = mt_apply_all(m, v.events);
        let ku = mt_apply_all(m, u.events);
        slot_from_is_first(v.table, Some(p.id), 0);
        slot_from_is_first(v.table, None, 0);
        let held = slot_of(v.table, p.id);
        let free = free_slot(v.table);
        let ex = ev(EV_ABS, ABS_MT_POSITION_X, p.x);
        let ey = ev(EV_ABS, ABS_MT_POSITION_Y, p.y);
        if held < v.table.len() {
            let a = select(v, held);
            mt_select(m, v, held);
            mt_push(m, a.events, ex);
            mt_push(m, a.events.push(ex), ey);
            assert(ku == (MtState {
                slot: held,
                xs: kv.xs.insert(held, p.x),
                ys: kv.ys.insert(held, p.y),
                ..kv
            }));
            assert(v.table =~= v.table.update(held, Some(p.id)));
            positions_step(v.table, u.table, kv, ku, points, n, held);
        } else if free < v.table.len() {
            let b = Walk { table: v.table.update(free, Some(p.id)), ..v };
            let a = select(b, free);
            let et = ev(EV_ABS, ABS_MT_TRACKING_ID, tracking_id(p.id));
            mt_select(m, b, free);
            mt_push(m, a.events, et);
            mt_push(m, a.events.push(et), ex);
            mt_push(m, a.events.push(et).push(ex), ey);
            assert(tracking_id(p.id) != -1);
            assert(ku == (MtState {
                slot: free,
                tracking: kv.tracking.insert(free, tracking_id(p.id)),
                xs: kv.xs.insert(free, p.x),
                ys: kv.ys.insert(free, p.y),
            }));
            positions_step(v.table, u.table, kv, ku, points, n, free);
        } else {
            assert(u.table == v.table);
            assert forall|i: int, s: int|
                #![trigger points[i], u.table[s]]
                last_entry(points, i, n) && 0 <= s < u.table.len() && u.table[s] == Some(
                    points[i].id,
                ) implies ku.xs.contains_key(s) && ku.xs[s] == points[i].x && ku.ys.contains_key(s)
                && ku.ys[s] == points[i].y by {
                assert(i < n - 1);
                assert(last_entry(points, i, n - 1));
                assert(v.table[s] == Some(points[i].id));
            }
        }
    }
}

/// Reporting the `n`-th finger in slot `at` keeps the positions of the others.
proof fn positions_step(
    before: Seq<Option<u32>>,
    after: Seq<Option<u32>>,
    kb: MtState,
    ka: MtState,
    points: Seq<TouchContact>,
    n: int,
    at: int,
)
    requires
        0 < n <= points.len(),
        0 <= at < before.len(),
        table_wf(after),
        after == before.update(at, Some(points[n - 1].id)),
        positions_in_step(before, kb, points, n - 1),
        ka.xs == kb.xs.insert(at, points[n - 1].x),
        ka.ys == kb.ys.insert(at, points[n - 1].y),
    ensures
        positions_in_step(after, ka, points, n),
{
    assert forall|i: int, s: int|
        #![trigger points[i], after[s]]
        last_entry(points, i, n) && 0 <= s < after.len() && after[s] == Some(
            points[i].id,
        ) implies ka.xs.contains_key(s) && ka.xs[s] == points[i].x && ka.ys.contains_key(s)
        && ka.ys[s] == points[i].y by {
        assert(after[at] == Some(points[n - 1].id));
        if i == n - 1 {
            // No finger holds two slots.
            assert(s == at);
        } else {
            assert(points[n - 1].id != points[i].id);
            assert(s != at);
            assert(last_entry(points, i, n - 1));
            assert(before[s] == Some(points[i].id));
        }
    }
}

/// Events that concern no slot leave the kernel's multi-touch state alone.
proof fn mt_tail(m: MtState, events: Seq<InputEvent>, tail: Seq<InputEvent>)
    requires
        forall|i: int|
            0 <= i < tail.len() ==> (#[trigger] tail[i]).kind != EV_ABS || tail[i].code == ABS_X
                || tail[i].code == ABS_Y,
    ensures
        mt_apply_all(m, events + tail) == mt_apply_all(m, events),
    decreases tail.len(),
{
    if tail.len() == 0 {
        assert(events + tail =~= events);
    } else {
        mt_tail(m, events, tail.drop_last());
        assert(events + tail =~= (events + tail.drop_last()).push(tail.last()));
        mt_push(m, events + tail.drop_last(), tail.last());
    }
}

/// The events of a snapshot bring the kernel to the snapshot: it then tracks exactly the fingers of
/// the table, at the positions of the snapshot. The one id that reads as a release when it is
/// announced is left out.
pub proof fn snapshot_reaches_kernel(st: TouchState, m: MtState, points: Seq<TouchContact>)
    requires
        touch_wf(st),
        in_step(st.table, st.active, m),
        forall|i: int| 0 <= i < points.len() ==> (#[trigger] points[i]).id != u32::MAX,
    ensures
        ({
            let next = touch_next(st, points);
            let k = mt_apply_all(m, touch_events(st, points));
            &&& in_step(next.table, next.active, k)
            &&& positions_in_step(next.table, k, points, points.len() as int)
        }),
{
    let w0 = Walk { table: st.table, active: st.active, events: seq![] };
    let w1 = released(w0, points, st.table.len() as int);
    assert(mt_apply_all(m, w0.events) == m);
    mt_released(m, w0, points, st.table.len() as int);
    released_table(w0, points, st.table.len() as int);
    assert(table_wf(w1.table));
    mt_placed(m, w1, points, points.len() as int);
    let walk = touch_walk(st, points);
    let a = single_touch(points);
    let b = touch_buttons(st.pressed, points.len() > 0);
    mt_tail(m, walk.events, a);
    mt_tail(m, walk.events + a, b);
    mt_tail(m, walk.events + a + b, seq![report()]);
}

// --- what the kernel makes of every call -------------------------------------------------------

/// The event announces or releases a finger.
pub open spec fn is_tracking(e: InputEvent) -> bool {
    e.kind == EV_ABS && e.code == ABS_MT_TRACKING_ID
}

/// The slot that event number `k` is about.
pub open spec fn slot_at(m: MtState, events: Seq<InputEvent>, k: int) -> int {
    mt_apply_all(m, events.take(k)).slot
}

/// A tracking id in slot `s` is called for: it releases a finger that is not down any more, or
/// announces one that held no slot before.
pub open spec fn called_for(
    before: Seq<Option<u32>>,
    after: Seq<Option<u32>>,
    points: Seq<TouchContact>,
    s: int,
    value: i32,
) -> bool {
    0 <= s < MAX_SLOTS && {
        ||| value == -1 && before[s] is Some && !has_id(points, before[s]->0)
        ||| after[s] is Some && !has_slot(before, after[s]->0) && value == tracking_id(after[s]->0)
    }
}

/// Every tracking id among the events is called for.
spec fn all_called_for(
    before: Seq<Option<u32>>,
    after: Seq<Option<u32>>,
    m: MtState,
    points: Seq<TouchContact>,
    events: Seq<InputEvent>,
) -> bool {
    forall|k: int|
        0 <= k < events.len() && is_tracking(#[trigger] events[k]) ==> called_for(
            before,
            after,
            points,
            slot_at(m, events, k),
            events[k].value,
        )
}

/// The fingers of the first `n` slots that are not down any more have been released.
spec fn all_released(
    before: Seq<Option<u32>>,
    m: MtState,
    points: Seq<TouchContact>,
    events: Seq<InputEvent>,
    n: int,
) -> bool {
    forall|s: int|
        0 <= s < n && before[s] is Some && !has_id(points, (#[trigger] before[s])->0)
            ==> was_released(m, events, s)
}

/// A release was written for slot `s`.
pub open spec fn was_released(m: MtState, events: Seq<InputEvent>, s: int) -> bool {
    exists|k: int|
        0 <= k < events.len() && is_tracking(#[trigger] events[k]) && events[k].value == -1
            && slot_at(m, events, k) == s
}

/// One more event.
proof fn called_for_push(
    before: Seq<Option<u32>>,
    after: Seq<Option<u32>>,
    m: MtState,
    points: Seq<TouchContact>,
    events: Seq<InputEvent>,
    e: InputEvent,
)
    requires
        all_called_for(before, after, m, points, events),
        is_tracking(e) ==> called_for(
            before,
            after,
            points,
            mt_apply_all(m, events).slot,
            e.value,
        ),
    ensures
        all_called_for(before, after, m, points, events.push(e)),
{
    let all = events.push(e);
    assert forall|k: int| 0 <= k < all.len() && is_tracking(#[trigger] all[k]) implies called_for(
        before,
        after,
        points,
        slot_at(m, all, k),
        all[k].value,
    ) by {
        assert(all.take(k) =~= events.take(k));
        if k == events.len() {
            assert(events.take(k) =~= events);
        } else {
            assert(all[k] == events[k]);
        }
    }
}

/// Later events take no release back.
proof fn released_stays(m: MtState, events: Seq<InputEvent>, tail: Seq<InputEvent>, s: int)
    requires
        was_released(m, events, s),
    ensures
        was_released(m, events + tail, s),
{
    let k = choose|k: int|
        0 <= k < events.len() && is_tracking(#[trigger] events[k]) && events[k].value == -1
            && slot_at(m, events, k) == s;
    let all = events + tail;
    assert(all[k] == events[k]);
    assert(all.take(k) =~= events.take(k));
}

proof fn released_called_for(m: MtState, w: Walk, points: Seq<TouchContact>, n: int)
    requires
        0 <= n <= w.table.len(),
        w.table.len() == MAX_SLOTS,
        w.events.len() == 0,
        w.active == -1 || w.active == m.slot,
    ensures
        ({
            let v = released(w, points, n);
            &&& v.active == -1 || v.active == mt_apply_all(m, v.events).slot
            &&& all_called_for(w.table, v.table, m, points, v.events)
            &&& all_released(w.table, m, points, v.events, n)
        }),
    decreases n,
{
    released_table(w, points, n);
    if n > 0 {
        released_called_for(m, w, points, n - 1);
        released_table(w, points, n - 1);
        let before = w.table;
        let v = released(w, points, n - 1);
        let u = released(w, points, n);
        if before[n - 1] is Some && !has_id(points, before[n - 1]->0) {
            let a = select(v, n - 1);
            let e = ev(EV_ABS, ABS_MT_SLOT, (n - 1) as i32);
            let r = ev(EV_ABS, ABS_MT_TRACKING_ID, -1i32);
            assert(all_called_for(before, u.table, m, points, v.events)) by {
                assert forall|k: int|
                    0 <= k < v.events.len() && is_tracking(#[trigger] v.events[k]) implies called_for(
                    before,
                    u.table,
                    points,
                    slot_at(m, v.events, k),
                    v.events[k].value,
                ) by {
                    let s = slot_at(m, v.events, k);
                    assert(called_for(before, v.table, points, s, v.events[k].value));
                    assert(before[s] is Some ==> has_slot(before, before[s]->0));
                }
            }
            if v.active != n - 1 {
                called_for_push(before, u.table, m, points, v.events, e);
            }
            mt_select(m, v, n - 1);
            called_for_push(before, u.table, m, points, a.events, r);
            mt_push(m, a.events, r);
            let tail = u.events.skip(v.events.len() as int);
            assert(u.events =~= v.events + tail);
            assert forall|s: int|
                0 <= s < n && before[s] is Some && !has_id(
                    points,
                    (#[trigger] before[s])->0,
                ) implies was_released(m, u.events, s) by {
                if s < n - 1 {
                    released_stays(m, v.events, tail, s);
                } else {
                    let k = a.events.len() as int;
                    assert(u.events[k] == r);
                    assert(u.events.take(k) =~= a.events);
                }
            }
        }
    }
}

proof fn placed_called_for(
    before: Seq<Option<u32>>,
    m: MtState,
    w: Walk,
    points: Seq<TouchContact>,
    n: int,
)
    requires
        0 <= n <= points.len(),
        before.len() == MAX_SLOTS,
        placing(w.table, w.table, points, 0),
        forall|s: int|
            0 <= s < before.len() && before[s] is Some && has_id(points, before[s]->0)
                ==> #[trigger] w.table[s] == before[s],
        w.active == -1 || w.active == mt_apply_all(m, w.events).slot,
        all_called_for(before, w.table, m, points, w.events),
    ensures
        ({
            let v = placed(w, points, n);
            &&& v.active == -1 || v.active == mt_apply_all(m, v.events).slot
            &&& all_called_for(before, v.table, m, points, v.events)
            &&& w.events.is_prefix_of(v.events)
        }),
    decreases n,
{
    if n > 0 {
        placed_called_for(before, m, w, points, n - 1);
        placed_table(w, points, n - 1);
        let v = placed(w, points, n - 1);
        let u = placed(w, points, n);
        let p = points[n - 1];
        slot_from_is_first(v.table, Some(p.id), 0);
        slot_from_is_first(v.table, None, 0);
        let held = slot_of(v.table, p.id);
        let free = free_slot(v.table);
        let ex = ev(EV_ABS, ABS_MT_POSITION_X, p.x);
        let ey = ev(EV_ABS, ABS_MT_POSITION_Y, p.y);
        if held < v.table.len() {
            let a = select(v, held);
            if v.active != held {
                called_for_push(
                    before,
                    v.table,
                    m,
                    points,
                    v.events,
                    ev(EV_ABS, ABS_MT_SLOT, held as i32),
                );
            }
            mt_select(m, v, held);
            called_for_push(before, v.table, m, points, a.events, ex);
            mt_push(m, a.events, ex);
            called_for_push(before, v.table, m, points, a.events.push(ex), ey);
            mt_push(m, a.events.push(ex), ey);
        } else if free < v.table.len() {
            let b = Walk { table: v.table.update(free, Some(p.id)), ..v };
            let a = select(b, free);
            let et = ev(EV_ABS, ABS_MT_TRACKING_ID, tracking_id(p.id));
            assert(all_called_for(before, b.table, m, points, v.events)) by {
                assert forall|k: int|
                    0 <= k < v.events.len() && is_tracking(#[trigger] v.events[k]) implies called_for(
                    before,
                    b.table,
                    points,
                    slot_at(m, v.events, k),
                    v.events[k].value,
                ) by {
                    let s = slot_at(m, v.events, k);
                    assert(called_for(before, v.table, points, s, v.events[k].value));
                }
            }
            assert(!has_slot(before, p.id)) by {
                if has_slot(before, p.id) {
                    let s = choose|s: int|
                        0 <= s < before.len() && #[trigger] before[s] == Some(p.id);
                    assert(points[n - 1].id == p.id);
                    assert(has_id(points, before[s]->0));
                    assert(w.table[s] == before[s]);
                    assert(v.table[s] == w.table[s]);
                }
            }
            if v.active != free {
                called_for_push(
                    before,
                    b.table,
                    m,
                    points,
                    v.events,
                    ev(EV_ABS, ABS_MT_SLOT, free as i32),
                );
            }
            mt_select(m, b, free);
            assert(b.table[free] == Some(p.id));
            called_for_push(before, b.table, m, points, a.events, et);
            mt_push(m, a.events, et);
            called_for_push(before, b.table, m, points, a.events.push(et), ex);
            mt_push(m, a.events.push(et), ex);
            called_for_push(before, b.table, m, points, a.events.push(et).push(ex), ey);
            mt_push(m, a.events.push(et).push(ex), ey);
        }
    } else {
        assert(w.events.is_prefix_of(w.events));
    }
}

/// Events other than tracking ids are always in order.
proof fn called_for_tail(
    before: Seq<Option<u32>>,
    after: Seq<Option<u32>>,
    m: MtState,
    points: Seq<TouchContact>,
    events: Seq<InputEvent>,
    tail: Seq<InputEvent>,
)
    requires
        all_called_for(before, after, m, points, events),
        forall|i: int| 0 <= i < tail.len() ==> !is_tracking(#[trigger] tail[i]),
    ensures
        all_called_for(before, after, m, points, events + tail),
    decreases tail.len(),
{
    if tail.len() == 0 {
        assert(events + tail =~= events);
    } else {
        called_for_tail(before, after, m, points, events, tail.drop_last());
        assert(events + tail =~= (events + tail.drop_last()).push(tail.last()));
        called_for_push(before, after, m, points, events + tail.drop_last(), tail.last());
    }
}

/// Only what changes between two snapshots is told: a finger that stays down keeps its slot, in which
/// no second tracking id is written, and each finger that is not down any more is released.
pub open spec fn changes_in_order(st: TouchState, m: MtState, points: Seq<TouchContact>) -> bool {
    let after = touch_next(st, points).table;
    let events = touch_events(st, points);
    &&& forall|s: int|
        0 <= s < MAX_SLOTS && st.table[s] is Some && has_id(points, st.table[s]->0)
            ==> #[trigger] after[s] == st.table[s]
    &&& forall|k: int|
        0 <= k < events.len() && is_tracking(#[trigger] events[k]) ==> {
            let s = slot_at(m, events, k);
            &&& called_for(st.table, after, points, s, events[k].value)
            &&& !(st.table[s] is Some && has_id(points, st.table[s]->0))
        }
    &&& forall|s: int|
        0 <= s < MAX_SLOTS && st.table[s] is Some && !has_id(points, (#[trigger] st.table[s])->0)
            ==> was_released(m, events, s)
}

/// A snapshot writes a tracking id only where one is called for.
pub proof fn tracking_ids_are_called_for(st: TouchState, m: MtState, points: Seq<TouchContact>)
    requires
        touch_wf(st),
        in_step(st.table, st.active, m),
    ensures
        changes_in_order(st, m, points),
{
    let w0 = Walk { table: st.table, active: st.active, events: seq![] };
    let w1 = released(w0, points, st.table.len() as int);
    assert(mt_apply_all(m, w0.events) == m);
    released_called_for(m, w0, points, st.table.len() as int);
    released_table(w0, points, st.table.len() as int);
    assert(table_wf(w1.table));
    placed_called_for(st.table, m, w1, points, points.len() as int);
    snapshot_tracks_fingers(st, points);
    let walk = touch_walk(st, points);
    let after = walk.table;
    let rest = single_touch(points) + touch_buttons(st.pressed, points.len() > 0) + seq![report()];
    let events = touch_events(st, points);
    assert(events =~= walk.events + rest);
    called_for_tail(st.table, after, m, points, walk.events, rest);
    assert forall|k: int| 0 <= k < events.len() && is_tracking(#[trigger] events[k]) implies {
        let s = slot_at(m, events, k);
        &&& called_for(st.table, after, points, s, events[k].value)
        &&& !(st.table[s] is Some && has_id(points, st.table[s]->0))
    } by {
        let s = slot_at(m, events, k);
        if st.table[s] is Some && has_id(points, st.table[s]->0) {
            assert(after[s] == st.table[s]);
            assert(has_slot(st.table, st.table[s]->0));
        }
    }
    assert forall|s: int|
        0 <= s < MAX_SLOTS && st.table[s] is Some && !has_id(
            points,
            (#[trigger] st.table[s])->0,
        ) implies was_released(m, events, s) by {
        let tail = events.skip(w1.events.len() as int);
        assert(events =~= w1.events + tail);
        released_stays(m, w1.events, tail, s);
    }
}

/// What the kernel keeps for a touchscreen that has just been made.
pub open spec fn mt_fresh() -> MtState {
    MtState { slot: 0, tracking: Map::empty(), xs: Map::empty(), ys: Map::empty() }
}

/// The state of a touchscreen after a number of snapshots.
pub open spec fn touch_after(calls: Seq<Seq<TouchContact>>) -> TouchState
    decreases calls.len(),
{
    if calls.len() == 0 {
        touch_fresh()
    } else {
        touch_next(touch_after(calls.drop_last()), calls.last())
    }
}

/// What the kernel makes of all events that a number of snapshots have caused.
pub open spec fn mt_after(calls: Seq<Seq<TouchContact>>) -> MtState
    decreases calls.len(),
{
    if calls.len() == 0 {
        mt_fresh()
    } else {
        mt_apply_all(
            mt_after(calls.drop_last()),
            touch_events(touch_after(calls.drop_last()), calls.last()),
        )
    }
}

/// Every finger of every snapshot has an id that does not read as a release.
pub open spec fn ids_announceable(calls: Seq<Seq<TouchContact>>) -> bool {
    forall|c: int, i: int|
        0 <= c < calls.len() && 0 <= i < calls[c].len() ==> (#[trigger] calls[c][i]).id != u32::MAX
}

/// Slot `s` is open for the finger `id`.
pub open spec fn open_for(m: MtState, s: int, id: u32) -> bool {
    0 <= s < MAX_SLOTS && m.tracking.contains_key(s) && m.tracking[s] == tracking_id(id)
}

/// The finger has an open slot.
pub open spec fn has_open(m: MtState, id: u32) -> bool {
    exists|s: int| open_for(m, s, id)
}

/// The slot is open for a finger that is down.
pub open spec fn open_for_one(m: MtState, s: int, points: Seq<TouchContact>) -> bool {
    exists|i: int| 0 <= i < points.len() && open_for(m, s, (#[trigger] points[i]).id)
}

/// The open contacts are exactly the fingers that are down, each in a slot of its own.
pub open spec fn contacts_are(m: MtState, points: Seq<TouchContact>) -> bool {
    &&& forall|s: int| #[trigger] m.tracking.contains_key(s) ==> open_for_one(m, s, points)
    &&& forall|i: int| 0 <= i < points.len() ==> has_open(m, (#[trigger] points[i]).id)
    &&& forall|s: int, t: int, id: u32| open_for(m, s, id) && open_for(m, t, id) ==> s == t
}

/// After any number of snapshots the kernel is in step with the touchscreen.
pub proof fn calls_keep_step(calls: Seq<Seq<TouchContact>>)
    requires
        ids_announceable(calls),
    ensures
        touch_wf(touch_after(calls)),
        in_step(touch_after(calls).table, touch_after(calls).active, mt_after(calls)),
    decreases calls.len(),
{
    if calls.len() > 0 {
        let earlier = calls.drop_last();
        assert forall|c: int, i: int|
            0 <= c < earlier.len() && 0 <= i < earlier[c].len() implies (
        #[trigger] earlier[c][i]).id != u32::MAX by {
            assert(calls[c][i].id != u32::MAX);
        }
        calls_keep_step(earlier);
        let points = calls.last();
        assert forall|i: int| 0 <= i < points.len() implies (#[trigger] points[i]).id
            != u32::MAX by {
            assert(calls[calls.len() - 1][i].id != u32::MAX);
        }
        snapshot_reaches_kernel(touch_after(earlier), mt_after(earlier), points);
        snapshot_tracks_fingers(touch_after(earlier), points);
    }
}

/// The tracking ids of two fingers are the same only if the fingers are.
proof fn tracking_id_is_injective(a: u32, b: u32)
    ensures
        tracking_id(a) == tracking_id(b) ==> a == b,
{
}

/// A snapshot with no more different fingers than there are slots brings the kernel to where the open
/// contacts are exactly its fingers, each in a slot of its own.
pub proof fn open_contacts_are_snapshot(st: TouchState, m: MtState, points: Seq<TouchContact>)
    requires
        touch_wf(st),
        in_step(st.table, st.active, m),
        forall|i: int| 0 <= i < points.len() ==> (#[trigger] points[i]).id != u32::MAX,
        ids_of(points).len() <= MAX_SLOTS,
    ensures
        contacts_are(mt_apply_all(m, touch_events(st, points)), points),
{
    let table = touch_next(st, points).table;
    let k = mt_apply_all(m, touch_events(st, points));
    snapshot_reaches_kernel(st, m, points);
    snapshot_tracks_fingers(st, points);
    fingers_fit(st, points);
    assert forall|s: int| #[trigger] k.tracking.contains_key(s) implies open_for_one(
        k,
        s,
        points,
    ) by {
        let id = table[s]->0;
        assert(table[s] == Some(id));
        assert(has_slot(table, id));
        let i = choose|i: int| 0 <= i < points.len() && (#[trigger] points[i]).id == id;
        assert(open_for(k, s, points[i].id));
    }
    assert forall|i: int| 0 <= i < points.len() implies has_open(
        k,
        (#[trigger] points[i]).id,
    ) by {
        let id = points[i].id;
        assert(has_id(points, id));
        assert(has_slot(table, id));
        let s = choose|s: int| 0 <= s < table.len() && #[trigger] table[s] == Some(id);
        assert(k.tracking.contains_key(s));
        assert(open_for(k, s, id));
    }
    assert forall|s: int, t: int, id: u32| open_for(k, s, id) && open_for(k, t, id) implies s
        == t by {
        assert(table[s] is Some && table[t] is Some);
        tracking_id_is_injective(table[s]->0, id);
        tracking_id_is_injective(table[t]->0, id);
        assert(table[s] == table[t]);
    }
}

/// The same after any number of snapshots: the open contacts are exactly the fingers of the last one.
pub proof fn open_contacts_are_last_snapshot(calls: Seq<Seq<TouchContact>>)
    requires
        calls.len() > 0,
        ids_announceable(calls),
        ids_of(calls.last()).len() <= MAX_SLOTS,
    ensures
        contacts_are(mt_after(calls), calls.last()),
{
    let points = calls.last();
    let earlier = calls.drop_last();
    assert(ids_announceable(earlier)) by {
        assert forall|c: int, i: int|
            0 <= c < earlier.len() && 0 <= i < earlier[c].len() implies (
        #[trigger] earlier[c][i]).id != u32::MAX by {
            assert(calls[c][i].id != u32::MAX);
        }
    }
    calls_keep_step(earlier);
    assert forall|i: int| 0 <= i < points.len() implies (#[trigger] points[i]).id
        != u32::MAX by {
        assert(calls[calls.len() - 1][i].id != u32::MAX);
    }
    open_contacts_are_snapshot(touch_after(earlier), mt_after(earlier), points);
}

/// After any number of snapshots the next one tells only what changes.
pub proof fn every_call_tells_changes(earlier: Seq<Seq<TouchContact>>, points: Seq<TouchContact>)
    requires
        ids_announceable(earlier),
    ensures
        changes_in_order(touch_after(earlier), mt_after(earlier), points),
{
    calls_keep_step(earlier);
    tracking_ids_are_called_for(touch_after(earlier), mt_after(earlier), points);
}

// --- what other readers of the device see ------------------------------------------------------

/// The event is about a slot.
spec fn about_slot(e: InputEvent) -> bool {
    e.kind == EV_ABS && (e.code == ABS_MT_SLOT || e.code == ABS_MT_TRACKING_ID || e.code
        == ABS_MT_POSITION_X || e.code == ABS_MT_POSITION_Y)
}

spec fn all_about_slots(events: Seq<InputEvent>) -> bool {
    forall|i: int| 0 <= i < events.len() ==> about_slot(#[trigger] events[i])
}

proof fn released_about_slots(w: Walk, points: Seq<TouchContact>, n: int)
    requires
        all_about_slots(w.events),
    ensures
        all_about_slots(released(w, points, n).events),
    decreases n,
{
    if n > 0 {
        released_about_slots(w, points, n - 1);
    }
}

proof fn placed_about_slots(w: Walk, points: Seq<TouchContact>, n: int)
    requires
        all_about_slots(w.events),
    ensures
        all_about_slots(placed(w, points, n).events),
    decreases n,
{
    if n > 0 {
        placed_about_slots(w, points, n - 1);
    }
}

proof fn walk_about_slots(st: TouchState, points: Seq<TouchContact>)
    ensures
        all_about_slots(touch_walk(st, points).events),
{
    let w0 = Walk { table: st.table, active: st.active, events: seq![] };
    released_about_slots(w0, points, st.table.len() as int);
    placed_about_slots(released(w0, points, st.table.len() as int), points, points.len() as int);
}

/// Events about slots move no pointer and press no button.
proof fn slots_move_nothing(events: Seq<InputEvent>, axes: Map<u16, i32>, keys: Set<u16>)
    requires
        all_about_slots(events),
    ensures
        axes_after(axes, events).contains_key(ABS_X) == axes.contains_key(ABS_X),
        axes_after(axes, events).contains_key(ABS_Y) == axes.contains_key(ABS_Y),
        axes_after(axes, events)[ABS_X] == axes[ABS_X],
        axes_after(axes, events)[ABS_Y] == axes[ABS_Y],
        keys_after_all(keys, events) == keys,
    decreases events.len(),
{
    if events.len() > 0 {
        let most = events.drop_last();
        assert(forall|i: int| 0 <= i < most.len() ==> #[trigger] most[i] == events[i]);
        slots_move_nothing(most, axes, keys);
        assert(about_slot(events[events.len() - 1]));
    }
}

/// One more event.
proof fn axes_push(axes: Map<u16, i32>, keys: Set<u16>, events: Seq<InputEvent>, e: InputEvent)
    ensures
        axes_after(axes, events.push(e)) == (if e.kind == EV_ABS {
            axes_after(axes, events).insert(e.code, e.value)
        } else {
            axes_after(axes, events)
        }),
        keys_after_all(keys, events.push(e)) == keys_after(keys_after_all(keys, events), e),
{
    assert(events.push(e).drop_last() =~= events);
}

/// The buttons of the touchscreen while fingers are down.
pub open spec fn touch_keys_down(down: bool) -> Set<u16> {
    if down {
        set![BTN_TOUCH, BTN_TOOL_FINGER]
    } else {
        set![]
    }
}

/// A reader that knows no slots sees one finger: the pointer is where the first finger of the
/// snapshot is, and stays where it was when none is down, and both touch buttons are down exactly
/// while a finger is.
pub proof fn pointer_follows_first_finger(
    st: TouchState,
    points: Seq<TouchContact>,
    axes: Map<u16, i32>,
)
    ensures
        ({
            let after = axes_after(axes, touch_events(st, points));
            &&& points.len() > 0 ==> {
                &&& after.contains_key(ABS_X) && after[ABS_X] == points[0].x
                &&& after.contains_key(ABS_Y) && after[ABS_Y] == points[0].y
            }
            &&& points.len() == 0 ==> {
                &&& after.contains_key(ABS_X) == axes.contains_key(ABS_X) && after[ABS_X]
                    == axes[ABS_X]
                &&& after.contains_key(ABS_Y) == axes.contains_key(ABS_Y) && after[ABS_Y]
                    == axes[ABS_Y]
            }
        }),
        keys_after_all(touch_keys_down(st.pressed), touch_events(st, points)) == touch_keys_down(
            points.len() > 0,
        ),
        touch_next(st, points).pressed == (points.len() > 0),
{
    let keys = touch_keys_down(st.pressed);
    let walk = touch_walk(st, points).events;
    walk_about_slots(st, points);
    slots_move_nothing(walk, axes, keys);
    let a = single_touch(points);
    let b = touch_buttons(st.pressed, points.len() > 0);
    let mut done = walk;
    if points.len() > 0 {
        let ex = ev(EV_ABS, ABS_X, points[0].x);
        let ey = ev(EV_ABS, ABS_Y, points[0].y);
        axes_push(axes, keys, walk, ex);
        axes_push(axes, keys, walk.push(ex), ey);
        done = walk.push(ex).push(ey);
    }
    assert(walk + a =~= done);
    let mid = done;
    assert(keys_after_all(keys, mid) == keys);
    if st.pressed != (points.len() > 0) {
        let v: i32 = if points.len() > 0 {
            1
        } else {
            0
        };
        let e1 = ev(EV_KEY, BTN_TOUCH, v);
        let e2 = ev(EV_KEY, BTN_TOOL_FINGER, v);
        axes_push(axes, keys, mid, e1);
        axes_push(axes, keys, mid.push(e1), e2);
        done = mid.push(e1).push(e2);
    }
    assert(mid + b =~= done);
    axes_push(axes, keys, done, report());
    assert(touch_events(st, points) =~= done.push(report()));
    assert(keys_after_all(keys, touch_events(st, points)) =~= touch_keys_down(points.len() > 0));
}

/// The finger is in an open slot, at this position.
pub open spec fn finger_at(m: MtState, p: TouchContact) -> bool {
    exists|s: int| #[trigger]
        open_for(m, s, p.id) && m.xs.contains_key(s) && m.xs[s] == p.x && m.ys.contains_key(s)
            && m.ys[s] == p.y
}

/// After any number of snapshots every finger of the last one is where that snapshot says, as long
/// as there are no more different fingers than slots. A finger that is named twice is where it is
/// named last.
pub proof fn fingers_are_where_reported(calls: Seq<Seq<TouchContact>>, i: int)
    requires
        calls.len() > 0,
        ids_announceable(calls),
        ids_of(calls.last()).len() <= MAX_SLOTS,
        0 <= i < calls.last().len(),
        forall|j: int| i < j < calls.last().len() ==> (#[trigger] calls.last()[j]).id
            != calls.last()[i].id,
    ensures
        finger_at(mt_after(calls), calls.last()[i]),
{
    let points = calls.last();
    let earlier = calls.drop_last();
    let m = mt_after(calls);
    assert(ids_announceable(earlier)) by {
        assert forall|c: int, k: int|
            0 <= c < earlier.len() && 0 <= k < earlier[c].len() implies (
        #[trigger] earlier[c][k]).id != u32::MAX by {
            assert(calls[c][k].id != u32::MAX);
        }
    }
    calls_keep_step(earlier);
    assert forall|k: int| 0 <= k < points.len() implies (#[trigger] points[k]).id
        != u32::MAX by {
        assert(calls[calls.len() - 1][k].id != u32::MAX);
    }
    let st = touch_after(earlier);
    let table = touch_next(st, points).table;
    snapshot_reaches_kernel(st, mt_after(earlier), points);
    snapshot_tracks_fingers(st, points);
    fingers_fit(st, points);
    let id = points[i].id;
    assert(has_id(points, id));
    assert(has_slot(table, id));
    let s = choose|s: int| 0 <= s < table.len() && #[trigger] table[s] == Some(id);
    assert(last_entry(points, i, points.len() as int));
    assert(m.tracking.contains_key(s));
    assert(open_for(m, s, id));
}

/// What holds of slots that are given while fingers are reported.
spec fn first_free_so_far(base: Seq<Option<u32>>, table: Seq<Option<u32>>) -> bool {
    &&& table.len() == base.len()
    &&& forall|s: int| 0 <= s < table.len() && base[s] is Some ==> #[trigger] table[s] is Some
    &&& forall|s: int, t: int|
        0 <= t < s < table.len() && (#[trigger] table[s]) is Some && base[s] is None
            ==> (#[trigger] table[t]) is Some
}

proof fn placed_first_free(w: Walk, points: Seq<TouchContact>, n: int)
    ensures
        first_free_so_far(w.table, placed(w, points, n).table),
    decreases n,
{
    if n > 0 {
        placed_first_free(w, points, n - 1);
        let v = placed(w, points, n - 1);
        slot_from_is_first(v.table, Some(points[n - 1].id), 0);
        slot_from_is_first(v.table, None, 0);
    }
}

/// A new finger gets the first slot that is free: no slot below one that was given to a new finger is
/// left free.
pub proof fn new_finger_gets_first_free_slot(st: TouchState, points: Seq<TouchContact>, s: int, t: int)
    requires
        touch_wf(st),
        0 <= t < s < MAX_SLOTS,
        touch_next(st, points).table[s] is Some,
        touch_next(st, points).table[s] != st.table[s],
    ensures
        touch_next(st, points).table[t] is Some,
{
    let w0 = Walk { table: st.table, active: st.active, events: seq![] };
    let w1 = released(w0, points, st.table.len() as int);
    released_table(w0, points, st.table.len() as int);
    placed_first_free(w1, points, points.len() as int);
    snapshot_tracks_fingers(st, points);
    let table = touch_next(st, points).table;
    if w1.table[s] is Some {
        assert(w1.table[s] == st.table[s]);
        assert(table[s] == st.table[s]);
    }
    assert(table[t] is Some);
}

/// A finger is announced under its own id, as far as a signed number can hold it, and otherwise under
/// the number with the same bits.
pub proof fn finger_is_announced_under_its_id(id: u32)
    ensures
        id <= i32::MAX ==> tracking_id(id) == id,
        (id - tracking_id(id)) % 0x1_0000_0000 == 0,
{
}

/// Once every slot is taken nothing changes.
proof fn full_table_stays(w: Walk, points: Seq<TouchContact>, from: int, n: int)
    requires
        0 <= from <= n,
        full(placed(w, points, from).table),
    ensures
        placed(w, points, n).table == placed(w, points, from).table,
    decreases n - from,
{
    if from < n {
        full_table_stays(w, points, from, n - 1);
        let v = placed(w, points, n - 1);
        slot_from_is_first(v.table, None, 0);
        if free_slot(v.table) < v.table.len() {
            assert(v.table[free_slot(v.table)] is Some);
        }
    }
}

/// What a slot holds was there before, or came with one of the fingers.
proof fn placed_came_from(w: Walk, points: Seq<TouchContact>, n: int, s: int)
    requires
        0 <= n <= points.len(),
        0 <= s < w.table.len(),
        placed(w, points, n).table[s] is Some,
        placed(w, points, n).table[s] != w.table[s],
    ensures
        exists|j: int|
            0 <= j < n && Some((#[trigger] points[j]).id) == placed(w, points, n).table[s],
    decreases n,
{
    placed_length(w, points, n);
    if n > 0 {
        placed_length(w, points, n - 1);
        let v = placed(w, points, n - 1);
        let u = placed(w, points, n);
        slot_from_is_first(v.table, Some(points[n - 1].id), 0);
        slot_from_is_first(v.table, None, 0);
        if u.table[s] == v.table[s] {
            placed_came_from(w, points, n - 1, s);
        } else {
            assert(Some(points[n - 1].id) == u.table[s]);
        }
    }
}

proof fn placed_length(w: Walk, points: Seq<TouchContact>, n: int)
    ensures
        placed(w, points, n).table.len() == w.table.len(),
    decreases n,
{
    if n > 0 {
        placed_length(w, points, n - 1);
        slot_from_is_first(placed(w, points, n - 1).table, None, 0);
    }
}

/// Slots are given in the order of the snapshot: where a finger gets none, each of them is held by a
/// finger that held one before or that stands before it in the snapshot.
pub proof fn late_fingers_are_dropped(st: TouchState, points: Seq<TouchContact>, i: int, s: int)
    requires
        touch_wf(st),
        0 <= i < points.len(),
        !has_slot(touch_next(st, points).table, points[i].id),
        0 <= s < MAX_SLOTS,
    ensures
        ({
            let held = touch_next(st, points).table[s];
            &&& held is Some
            &&& held == st.table[s] || exists|j: int|
                0 <= j < i && Some((#[trigger] points[j]).id) == held
        }),
{
    let w0 = Walk { table: st.table, active: st.active, events: seq![] };
    let w1 = released(w0, points, st.table.len() as int);
    released_table(w0, points, st.table.len() as int);
    assert(table_wf(w1.table));
    let n = points.len() as int;
    placed_table(w1, points, i);
    placed_table(w1, points, n);
    let v = placed(w1, points, i);
    let id = points[i].id;
    if !full(v.table) {
        // The finger would have got a slot, and kept it.
        slot_from_is_first(v.table, Some(id), 0);
        slot_from_is_first(v.table, None, 0);
        let u = placed(w1, points, i + 1);
        assert(u == placed_one(v, points[i]));
        let at = if slot_of(v.table, id) < v.table.len() {
            slot_of(v.table, id)
        } else {
            free_slot(v.table)
        };
        assert(u.table[at] == Some(id));
        placed_keeps(w1, points, i + 1, n, at);
        assert(touch_next(st, points).table[at] == Some(id));
    } else {
        full_table_stays(w1, points, i, n);
        assert(v.table[s] is Some);
        if v.table[s] != w1.table[s] {
            placed_came_from(w1, points, i, s);
        }
    }
}

/// A slot that is taken stays as it is.
proof fn placed_keeps(w: Walk, points: Seq<TouchContact>, from: int, n: int, s: int)
    requires
        0 <= from <= n,
        0 <= s < w.table.len(),
        placed(w, points, from).table[s] is Some,
    ensures
        placed(w, points, n).table[s] == placed(w, points, from).table[s],
    decreases n - from,
{
    placed_length(w, points, from);
    placed_length(w, points, n);
    if from < n {
        placed_keeps(w, points, from, n - 1, s);
        placed_length(w, points, n - 1);
        let v = placed(w, points, n - 1);
        slot_from_is_first(v.table, Some(points[n - 1].id), 0);
        slot_from_is_first(v.table, None, 0);
    }
}

} // verus!
