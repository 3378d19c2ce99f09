//! The virtual pen tablet: proximity, position, pressure and touch of one tool.

use vstd::prelude::*;

use crate::message::PointerTool;
use crate::touch::{event, InputEvent};
use crate::touch::{
    ABS_PRESSURE, ABS_X, ABS_Y, BTN_TOOL_PEN, BTN_TOOL_RUBBER, BTN_TOUCH, EV_ABS, EV_KEY, EV_SYN,
    SYN_REPORT,
};
use crate::touch::{axes_after, ev, report};

verus! {

/// Largest value of the pressure axis.
pub const PRESSURE_MAX: i32 = 1023;

/// The state of the pen tablet: whether the tip was down, and the tool button that was asserted
/// last and not released.
pub struct PenState {
    pub pressed: bool,
    pub tool: Option<u16>,
}

/// One report about the tool, in units of the device's axes.
#[derive(Debug, Clone, Copy, PartialEq, Eq, Structural)]
pub struct PenSample {
    pub x: i32,
    pub y: i32,
    pub pressed: bool,
    pub pressure: i32,
    pub tool: PointerTool,
    pub in_range: bool,
}

/// The button that stands for a tool.
pub open spec fn tool_button(tool: PointerTool) -> u16 {
    if tool == PointerTool::Eraser {
        BTN_TOOL_RUBBER
    } else {
        BTN_TOOL_PEN
    }
}

/// The tip is down only while a tool is in range, and the tool is a pen or a rubber.
pub open spec fn pen_wf(st: PenState) -> bool {
    &&& st.pressed ==> st.tool is Some
    &&& st.tool matches Some(t) ==> t == BTN_TOOL_PEN || t == BTN_TOOL_RUBBER
}

/// The batch that brings a tool into range, after the tool that was there before has left.
pub open spec fn approach(st: PenState, button: u16) -> Seq<InputEvent> {
    (match st.tool {
        Some(prev) => seq![ev(EV_KEY, prev, 0)],
        None => seq![],
    }) + seq![ev(EV_KEY, button, 1), report()]
}

/// The batch that moves a tool in range.
pub open spec fn motion(st: PenState, s: PenSample) -> Seq<InputEvent> {
    seq![ev(EV_ABS, ABS_X, s.x), ev(EV_ABS, ABS_Y, s.y), ev(EV_ABS, ABS_PRESSURE, s.pressure)]
        + (if s.pressed != st.pressed {
        seq![
            ev(
                EV_KEY,
                BTN_TOUCH,
                if s.pressed {
                    1
                } else {
                    0
                },
            ),
        ]
    } else {
        seq![]
    }) + seq![report()]
}

/// What takes the tool out of range: the tip goes up first if it is down.
pub open spec fn departure(st: PenState) -> Seq<InputEvent> {
    (if st.pressed {
        seq![ev(EV_KEY, BTN_TOUCH, 0)]
    } else {
        seq![]
    }) + (match st.tool {
        Some(t) => seq![ev(EV_KEY, t, 0)],
        None => seq![],
    })
}

/// The batches of events that a report causes, in their order.
pub open spec fn pen_batches(st: PenState, s: PenSample) -> Seq<Seq<InputEvent>> {
    let button = tool_button(s.tool);
    if s.in_range {
        if st.tool != Some(button) {
            seq![approach(st, button), motion(st, s)]
        } else {
            seq![motion(st, s)]
        }
    } else if departure(st).len() > 0 {
        seq![departure(st).push(report())]
    } else {
        seq![]
    }
}

/// The state after a report.
pub open spec fn pen_next(s: PenSample) -> PenState {
    if s.in_range {
        PenState { pressed: s.pressed, tool: Some(tool_button(s.tool)) }
    } else {
        PenState { pressed: false, tool: None }
    }
}

/// The contents of a list of batches.
pub open spec fn batch_views(batches: Seq<Vec<InputEvent>>) -> Seq<Seq<InputEvent>> {
    batches.map_values(|b: Vec<InputEvent>| b@)
}

/// The pen tablet.
#[derive(Debug)]
pub struct PenDev {
    last_pressed: bool,
    last_tool: Option<u16>,
}

impl View for PenDev {
    type V = PenState;

    closed spec fn view(&self) -> PenState {
        PenState { pressed: self.last_pressed, tool: self.last_tool }
    }
}

impl PenDev {
    /// A tablet without a tool in range.
    pub fn new() -> (dev: PenDev)
        ensures
            pen_wf(dev@),
            dev@ == (PenState { pressed: false, tool: None }),
    {
        PenDev { last_pressed: false, last_tool: None }
    }

    /// Takes a report about the tool and returns the batches of events that tell the kernel, each
    /// to be written on its own.
    pub fn send_pen(&mut self, s: PenSample) -> (batches: Vec<Vec<InputEvent>>)
        requires
            pen_wf(old(self)@),
        ensures
            pen_wf(final(self)@),
            batch_views(batches@) == pen_batches(old(self)@, s),
            final(self)@ == pen_next(s),
    {
        let ghost st = self@;
        let button: u16 = match s.tool {
            PointerTool::Eraser => BTN_TOOL_RUBBER,
            _ => BTN_TOOL_PEN,
        };
        let mut batches: Vec<Vec<InputEvent>> = Vec::new();
        if s.in_range {
            // A tool has to be in range before the batch that moves it.
            if self.last_tool != Some(button) {
                let mut prox: Vec<InputEvent> = Vec::new();
                if let Some(prev) = self.last_tool {
                    prox.push(event(EV_KEY, prev, 0));
                }
                prox.push(event(EV_KEY, button, 1));
                prox.push(event(EV_SYN, SYN_REPORT, 0));
                assert(prox@ =~= approach(st, button));
                batches.push(prox);
                self.last_tool = Some(button);
            }
            let mut events: Vec<InputEvent> = Vec::new();
            events.push(event(EV_ABS, ABS_X, s.x));
            events.push(event(EV_ABS, ABS_Y, s.y));
            events.push(event(EV_ABS, ABS_PRESSURE, s.pressure));
            if s.pressed != self.last_pressed {
                let v: i32 = if s.pressed {
                    1
                } else {
                    0
                };
                events.push(event(EV_KEY, BTN_TOUCH, v));
                self.last_pressed = s.pressed;
            }
            events.push(event(EV_SYN, SYN_REPORT, 0));
            assert(events@ =~= motion(st, s));
            batches.push(events);
        } else {
            let mut prox: Vec<InputEvent> = Vec::new();
            if self.last_pressed {
                prox.push(event(EV_KEY, BTN_TOUCH, 0));
                self.last_pressed = false;
            }
            if let Some(t) = self.last_tool {
                prox.push(event(EV_KEY, t, 0));
                self.last_tool = None;
            }
            assert(prox@ =~= departure(st));
            if prox.len() > 0 {
                prox.push(event(EV_SYN, SYN_REPORT, 0));
                batches.push(prox);
            }
        }
        assert(batch_views(batches@) =~= pen_batches(st, s));
        batches
    }
}

// --- what holds of every report ----------------------------------------------------------------

/// Every batch closes with a report and holds no other one.
pub proof fn pen_batch_ends_with_report(st: PenState, s: PenSample, i: int)
    requires
        0 <= i < pen_batches(st, s).len(),
    ensures
        ({
            let batch = pen_batches(st, s)[i];
            &&& batch.len() > 1
            &&& batch.last() == report()
            &&& forall|j: int| 0 <= j < batch.len() - 1 ==> (#[trigger] batch[j]).kind != EV_SYN
        }),
{
}

/// A tool comes into range in a batch of its own: no batch that announces a tool moves it or
/// presses the tip.
pub proof fn approach_stands_alone(st: PenState, s: PenSample, i: int, j: int, k: int)
    requires
        pen_wf(st),
        0 <= i < pen_batches(st, s).len(),
        0 <= j < pen_batches(st, s)[i].len(),
        0 <= k < pen_batches(st, s)[i].len(),
        pen_batches(st, s)[i][j].kind == EV_KEY,
        pen_batches(st, s)[i][j].code == BTN_TOOL_PEN || pen_batches(st, s)[i][j].code
            == BTN_TOOL_RUBBER,
        pen_batches(st, s)[i][j].value == 1,
    ensures
        pen_batches(st, s)[i][k].kind != EV_ABS,
        pen_batches(st, s)[i][k].code != BTN_TOUCH,
{
}

/// The buttons that are down after one event.
pub open spec fn keys_after(keys: Set<u16>, e: InputEvent) -> Set<u16> {
    if e.kind != EV_KEY {
        keys
    } else if e.value == 0 {
        keys.remove(e.code)
    } else {
        keys.insert(e.code)
    }
}

/// The buttons that are down after a list of events.
pub open spec fn keys_after_all(keys: Set<u16>, events: Seq<InputEvent>) -> Set<u16>
    decreases events.len(),
{
    if events.len() == 0 {
        keys
    } else {
        keys_after(keys_after_all(keys, events.drop_last()), events.last())
    }
}

/// The buttons that are down after some batches.
pub open spec fn keys_after_batches(keys: Set<u16>, batches: Seq<Seq<InputEvent>>) -> Set<u16>
    decreases batches.len(),
{
    if batches.len() == 0 {
        keys
    } else {
        keys_after_all(keys_after_batches(keys, batches.drop_last()), batches.last())
    }
}

/// The buttons that the state says are down.
pub open spec fn keys_down(st: PenState) -> Set<u16> {
    let tip: Set<u16> = if st.pressed {
        set![BTN_TOUCH]
    } else {
        set![]
    };
    match st.tool {
        Some(t) => tip.insert(t),
        None => tip,
    }
}

/// The batches of a report bring the kernel's buttons to the new state: the tool in range, and no
/// other, and the tip if it is down.
pub proof fn pen_reaches_kernel(st: PenState, s: PenSample)
    requires
        pen_wf(st),
    ensures
        keys_after_batches(keys_down(st), pen_batches(st, s)) == keys_down(pen_next(s)),
{
    reveal_with_fuel(keys_after_all, 6);
    reveal_with_fuel(keys_after_batches, 3);
    let button = tool_button(s.tool);
    let batches = pen_batches(st, s);
    let before = keys_down(st);
    if s.in_range {
        let mid: Set<u16> = if st.pressed {
            set![BTN_TOUCH, button]
        } else {
            set![button]
        };
        if st.tool != Some(button) {
            let a = approach(st, button);
            assert(keys_after_all(before, a) =~= mid);
            assert(batches.drop_last() =~= seq![a]);
            assert(seq![a].drop_last() =~= seq![]);
        } else {
            assert(before =~= mid);
            assert(batches.drop_last() =~= seq![]);
        }
        let m = motion(st, s);
        assert(keys_after_all(mid, m) =~= keys_down(pen_next(s)));
    } else if departure(st).len() > 0 {
        let d = departure(st).push(report());
        assert(batches.drop_last() =~= seq![]);
        assert(keys_after_all(before, d) =~= keys_down(pen_next(s)));
    } else {
        assert(before =~= keys_down(pen_next(s)));
    }
}

/// The values of the axes after some batches.
pub open spec fn axes_after_batches(
    axes: Map<u16, i32>,
    batches: Seq<Seq<InputEvent>>,
) -> Map<u16, i32>
    decreases batches.len(),
{
    if batches.len() == 0 {
        axes
    } else {
        axes_after(axes_after_batches(axes, batches.drop_last()), batches.last())
    }
}

/// The buttons that are down while a tool is where a report says.
pub open spec fn keys_reported(s: PenSample) -> Set<u16> {
    if !s.in_range {
        set![]
    } else {
        match (s.tool, s.pressed) {
            (PointerTool::Eraser, true) => set![BTN_TOOL_RUBBER, BTN_TOUCH],
            (PointerTool::Eraser, false) => set![BTN_TOOL_RUBBER],
            (_, true) => set![BTN_TOOL_PEN, BTN_TOUCH],
            (_, false) => set![BTN_TOOL_PEN],
        }
    }
}

/// Where a tool is after a report, and how hard it is pressed: what the report says as long as the
/// tool is in range, pressed or not. A tool out of range moves nothing.
pub proof fn pen_position_reaches_kernel(st: PenState, axes: Map<u16, i32>, s: PenSample)
    ensures
        axes_after_batches(axes, pen_batches(st, s)) == (if s.in_range {
            axes.insert(ABS_X, s.x).insert(ABS_Y, s.y).insert(ABS_PRESSURE, s.pressure)
        } else {
            axes
        }),
{
    reveal_with_fuel(axes_after, 6);
    reveal_with_fuel(axes_after_batches, 3);
    let batches = pen_batches(st, s);
    let after = axes.insert(ABS_X, s.x).insert(ABS_Y, s.y).insert(ABS_PRESSURE, s.pressure);
    if s.in_range {
        let a = approach(st, tool_button(s.tool));
        let m = motion(st, s);
        assert(axes_after(axes, a) =~= axes);
        assert(seq![a].drop_last() =~= seq![]);
        assert(axes_after_batches(axes, seq![a]) =~= axes);
        if st.tool != Some(tool_button(s.tool)) {
            assert(batches.drop_last() =~= seq![a]);
        } else {
            assert(batches.drop_last() =~= seq![]);
        }
        if s.pressed != st.pressed {
            assert(m.len() == 5);
            assert(m.drop_last().drop_last().drop_last() =~= seq![
                ev(EV_ABS, ABS_X, s.x),
                ev(EV_ABS, ABS_Y, s.y),
            ]);
        } else {
            assert(m.len() == 4);
            assert(m.drop_last().drop_last() =~= seq![
                ev(EV_ABS, ABS_X, s.x),
                ev(EV_ABS, ABS_Y, s.y),
            ]);
        }
        assert(axes_after(axes, m) =~= after);
    } else if departure(st).len() > 0 {
        let d = departure(st).push(report());
        assert(batches.drop_last() =~= seq![]);
        assert(axes_after(axes, d) =~= axes);
    }
}

/// The buttons are what the report says: the tool in range, the rubber for an eraser and the pen for
/// any other, the tip if it is pressed, and nothing out of range.
pub proof fn pen_buttons_reach_kernel(st: PenState, s: PenSample)
    requires
        pen_wf(st),
    ensures
        keys_after_batches(keys_down(st), pen_batches(st, s)) == keys_reported(s),
        keys_down(pen_next(s)) == keys_reported(s),
{
    pen_reaches_kernel(st, s);
    assert(keys_down(pen_next(s)) =~= keys_reported(s));
}

/// A tool is announced before it is moved: the button of the tool in range is down before any batch
/// that holds a position or a pressure.
pub proof fn tool_is_in_range_before_it_moves(st: PenState, s: PenSample, i: int, j: int)
    requires
        pen_wf(st),
        0 <= i < pen_batches(st, s).len(),
        0 <= j < pen_batches(st, s)[i].len(),
        pen_batches(st, s)[i][j].kind == EV_ABS,
    ensures
        s.in_range,
        keys_after_batches(keys_down(st), pen_batches(st, s).take(i)).contains(
            if s.tool == PointerTool::Eraser {
                BTN_TOOL_RUBBER
            } else {
                BTN_TOOL_PEN
            },
        ),
{
    reveal_with_fuel(keys_after_all, 6);
    reveal_with_fuel(keys_after_batches, 3);
    let button = tool_button(s.tool);
    let batches = pen_batches(st, s);
    if s.in_range {
        if st.tool != Some(button) {
            let a = approach(st, button);
            if i == 1 {
                assert(batches.take(1) =~= seq![a]);
                assert(seq![a].drop_last() =~= seq![]);
                assert(a.drop_last().last() == ev(EV_KEY, button, 1));
            }
        } else {
            assert(batches.take(0) =~= seq![]);
        }
    }
}

/// A report that only moves the tool is one batch: the position, the pressure and nothing else. One
/// about a tool that is out of range already is no batch at all.
pub proof fn only_changes_are_told(st: PenState, s: PenSample)
    requires
        pen_wf(st),
        st == pen_next(s),
    ensures
        s.in_range ==> pen_batches(st, s) == seq![
            seq![
                ev(EV_ABS, ABS_X, s.x),
                ev(EV_ABS, ABS_Y, s.y),
                ev(EV_ABS, ABS_PRESSURE, s.pressure),
                report(),
            ],
        ],
        !s.in_range ==> pen_batches(st, s).len() == 0,
{
    if s.in_range {
        assert(motion(st, s) =~= seq![
            ev(EV_ABS, ABS_X, s.x),
            ev(EV_ABS, ABS_Y, s.y),
            ev(EV_ABS, ABS_PRESSURE, s.pressure),
            report(),
        ]);
    }
}

/// A tool that leaves while its tip is down lifts the tip first.
pub proof fn tip_goes_up_before_tool_leaves(st: PenState, s: PenSample)
    requires
        pen_wf(st),
        !s.in_range,
        st.pressed,
    ensures
        pen_batches(st, s).len() == 1,
        pen_batches(st, s)[0][0] == ev(EV_KEY, BTN_TOUCH, 0),
{
}

/// The state of a tablet after a number of reports.
pub open spec fn pen_after(samples: Seq<PenSample>) -> PenState {
    if samples.len() == 0 {
        PenState { pressed: false, tool: None }
    } else {
        pen_next(samples.last())
    }
}

/// The buttons that are down after a number of reports to a tablet.
pub open spec fn pen_keys_after(samples: Seq<PenSample>) -> Set<u16>
    decreases samples.len(),
{
    if samples.len() == 0 {
        set![]
    } else {
        keys_after_batches(
            pen_keys_after(samples.drop_last()),
            pen_batches(pen_after(samples.drop_last()), samples.last()),
        )
    }
}

/// After any number of reports the kernel has what the last one says.
pub proof fn kernel_has_last_report(samples: Seq<PenSample>)
    requires
        samples.len() > 0,
    ensures
        pen_keys_after(samples) == keys_reported(samples.last()),
    decreases samples.len(),
{
    let earlier = samples.drop_last();
    let st = pen_after(earlier);
    if earlier.len() > 0 {
        kernel_has_last_report(earlier);
        assert(pen_keys_after(earlier) == keys_reported(earlier.last()));
        pen_buttons_reach_kernel(pen_after(earlier.drop_last()), earlier.last());
    } else {
        assert(keys_down(st) =~= set![]);
    }
    assert(pen_keys_after(earlier) =~= keys_down(st));
    pen_buttons_reach_kernel(st, samples.last());
}

} // verus!
