//! COSMIC's `input_devices` configuration: which output a device belongs to.
//!
//! The file is a map from device names to entries. Here it is a list in which no name occurs twice.

use vstd::prelude::*;

use crate::input::{titled, PEN_NAME_PREFIX, TOUCH_NAME_PREFIX};
use crate::input::device_title;
use crate::session::opt_view;
use crate::text::{chars_of, str_eq, trim};
use crate::text::trimmed;

verus! {

/// Whether a device is in use.
#[derive(Debug, Clone, Copy, PartialEq, Eq, Structural)]
pub enum CosmicInputState {
    Enabled,
    Disabled,
    DisabledOnExternalMouse,
}

/// The configuration of one device.
#[derive(Debug)]
pub struct CosmicInputEntry {
    pub name: String,
    pub state: CosmicInputState,
    pub map_to_output: Option<String>,
}

/// The value of a [`CosmicInputEntry`].
pub struct Entry {
    pub name: Seq<char>,
    pub state: CosmicInputState,
    pub map_to_output: Option<Seq<char>>,
}

impl View for CosmicInputEntry {
    type V = Entry;

    open spec fn view(&self) -> Entry {
        Entry {
            name: self.name@,
            state: self.state,
            map_to_output: match self.map_to_output {
                Some(s) => Some(s@),
                None => None,
            },
        }
    }
}

/// The contents of a list of entries.
pub open spec fn entry_views(entries: Seq<CosmicInputEntry>) -> Seq<Entry> {
    entries.map_values(|e: CosmicInputEntry| e@)
}

/// The first entry of a device from index `from` on, or the number of entries.
pub open spec fn entry_from(entries: Seq<Entry>, name: Seq<char>, from: int) -> int
    decreases entries.len() - from,
{
    if from >= entries.len() {
        entries.len() as int
    } else if entries[from].name == name {
        from
    } else {
        entry_from(entries, name, from + 1)
    }
}

/// The entry of a device.
pub open spec fn entry_of(entries: Seq<Entry>, name: Seq<char>) -> Option<Entry> {
    let i = entry_from(entries, name, 0);
    if i < entries.len() {
        Some(entries[i])
    } else {
        None
    }
}

/// The entries with one for a device, in the place of its old one if there is one.
pub open spec fn with_entry(entries: Seq<Entry>, e: Entry) -> Seq<Entry> {
    let i = entry_from(entries, e.name, 0);
    if i < entries.len() {
        entries.update(i, e)
    } else {
        entries.push(e)
    }
}

/// No device has two entries.
pub open spec fn names_differ(entries: Seq<Entry>) -> bool {
    forall|i: int, j: int|
        0 <= i < j < entries.len() ==> (#[trigger] entries[i]).name != (#[trigger] entries[j]).name
}

/// `entry_from` is the first entry of the device.
pub proof fn entry_from_is_first(entries: Seq<Entry>, name: Seq<char>, from: int)
    requires
        0 <= from <= entries.len(),
    ensures
        from <= entry_from(entries, name, from) <= entries.len(),
        entry_from(entries, name, from) < entries.len() ==> entries[entry_from(
            entries,
            name,
            from,
        )].name == name,
        forall|i: int|
            from <= i < entry_from(entries, name, from) ==> (#[trigger] entries[i]).name != name,
    decreases entries.len() - from,
{
    if from < entries.len() && entries[from].name != name {
        entry_from_is_first(entries, name, from + 1);
    }
}

/// Writing the entry of a device leaves it as written and keeps those of all other devices.
pub proof fn other_entries_are_kept(entries: Seq<Entry>, e: Entry)
    requires
        names_differ(entries),
    ensures
        names_differ(with_entry(entries, e)),
        entry_of(with_entry(entries, e), e.name) == Some(e),
        forall|n: Seq<char>|
            n != e.name ==> #[trigger] entry_of(with_entry(entries, e), n) == entry_of(entries, n),
{
    let after = with_entry(entries, e);
    let i = entry_from(entries, e.name, 0);
    entry_from_is_first(entries, e.name, 0);
    entry_from_is_first(after, e.name, 0);
    assert(after[i] == e);
    assert forall|n: Seq<char>| n != e.name implies #[trigger] entry_of(after, n) == entry_of(
        entries,
        n,
    ) by {
        entry_from_is_first(entries, n, 0);
        entry_from_is_first(after, n, 0);
        let a = entry_from(entries, n, 0);
        let b = entry_from(after, n, 0);
        if b < after.len() {
            assert(b != i);
            assert(after[b] == entries[b]);
        }
        if a < entries.len() {
            assert(a != i);
            assert(after[a] == entries[a]);
        }
    }
}

/// The first entry of a device, or the number of entries.
fn position(entries: &Vec<CosmicInputEntry>, name: &str) -> (i: usize)
    ensures
        i == entry_from(entry_views(entries@), name@, 0),
        i <= entries@.len(),
{
    let ghost all = entry_views(entries@);
    let mut i: usize = 0;
    while i < entries.len()
        invariant
            i <= entries@.len(),
            all == entry_views(entries@),
            entry_from(all, name@, 0) == entry_from(all, name@, i as int),
        decreases entries@.len() - i,
    {
        assert(all[i as int].name == entries@[i as int].name@);
        if str_eq(entries[i].name.as_str(), name) {
            return i;
        }
        i += 1;
    }
    i
}

/// Writes the entry of a device.
fn put(entries: &mut Vec<CosmicInputEntry>, entry: CosmicInputEntry)
    requires
        names_differ(entry_views(old(entries)@)),
    ensures
        entry_views(final(entries)@) == with_entry(entry_views(old(entries)@), entry@),
        names_differ(entry_views(final(entries)@)),
{
    let ghost before = entry_views(entries@);
    let ghost e = entry@;
    let i: usize = position(entries, entry.name.as_str());
    if i < entries.len() {
        entries.set(i, entry);
        assert(entry_views(entries@) =~= before.update(i as int, e));
    } else {
        entries.push(entry);
        assert(entry_views(entries@) =~= before.push(e));
    }
    proof {
        other_entries_are_kept(before, e);
    }
}

/// The entry of a device that is in use on an output, or on whichever the compositor picks.
pub open spec fn enabled_entry(name: Seq<char>, output: Option<Seq<char>>) -> Entry {
    Entry { name, state: CosmicInputState::Enabled, map_to_output: output }
}

fn enabled(name: String, output: Option<&str>) -> (entry: CosmicInputEntry)
    ensures
        entry@ == enabled_entry(name@, opt_view(output)),
{
    let map_to_output: Option<String> = match output {
        Some(s) => Some(String::from_str(s)),
        None => None,
    };
    CosmicInputEntry { name, state: CosmicInputState::Enabled, map_to_output }
}

/// Whether the text of a configuration holds a map. An empty file stands for an empty one.
pub fn has_entries(text: &str) -> (filled: bool)
    ensures
        filled == (trimmed(text@).len() > 0),
{
    let chars = chars_of(text);
    trim(chars.as_slice()).len() > 0
}

/// Writes the entries of a client's touchscreen and pen tablet.
pub fn ensure_cosmic_input_entries(
    entries: &mut Vec<CosmicInputEntry>,
    device_name: &str,
    map_to: Option<&str>,
)
    requires
        names_differ(entry_views(old(entries)@)),
    ensures
        names_differ(entry_views(final(entries)@)),
        entry_views(final(entries)@) == with_entry(
            with_entry(
                entry_views(old(entries)@),
                enabled_entry(device_title(TOUCH_NAME_PREFIX@, device_name@), opt_view(map_to)),
            ),
            enabled_entry(device_title(PEN_NAME_PREFIX@, device_name@), opt_view(map_to)),
        ),
{
    put(entries, enabled(titled(TOUCH_NAME_PREFIX, device_name), map_to));
    put(entries, enabled(titled(PEN_NAME_PREFIX, device_name), map_to));
}

/// Writes the output of the touchscreen.
pub fn write_touch_mapping(entries: &mut Vec<CosmicInputEntry>, output: Option<&str>)
    requires
        names_differ(entry_views(old(entries)@)),
    ensures
        names_differ(entry_views(final(entries)@)),
        entry_views(final(entries)@) == with_entry(
            entry_views(old(entries)@),
            enabled_entry(TOUCH_NAME_PREFIX@, opt_view(output)),
        ),
{
    put(entries, enabled(String::from_str(TOUCH_NAME_PREFIX), output));
}

/// The output of the touchscreen according to the entries.
pub open spec fn touch_output(entries: Seq<Entry>) -> Option<Seq<char>> {
    match entry_of(entries, TOUCH_NAME_PREFIX@) {
        Some(e) => e.map_to_output,
        None => None,
    }
}

/// The output of the touchscreen, if it has one.
pub fn read_current_touch_mapping(entries: &Vec<CosmicInputEntry>) -> (output: Option<String>)
    ensures
        match output {
            Some(s) => touch_output(entry_views(entries@)) == Some(s@),
            None => touch_output(entry_views(entries@)) is None,
        },
{
    let i: usize = position(entries, TOUCH_NAME_PREFIX);
    if i < entries.len() {
        assert(entry_views(entries@)[i as int] == entries@[i as int]@);
        match &entries[i].map_to_output {
            Some(s) => Some(String::from_str(s.as_str())),
            None => None,
        }
    } else {
        None
    }
}

/// The output that was written is the one that is read.
pub proof fn touch_mapping_round_trip(entries: Seq<Entry>, output: Option<Seq<char>>)
    requires
        names_differ(entries),
    ensures
        touch_output(with_entry(entries, enabled_entry(TOUCH_NAME_PREFIX@, output))) == output,
{
    other_entries_are_kept(entries, enabled_entry(TOUCH_NAME_PREFIX@, output));
}

/// The entries of a client's two devices are both there after they were written, and no third one
/// has changed.
pub proof fn client_devices_are_mapped(
    entries: Seq<Entry>,
    device_name: Seq<char>,
    map_to: Option<Seq<char>>,
)
    requires
        names_differ(entries),
    ensures
        ({
            let touch = device_title(TOUCH_NAME_PREFIX@, device_name);
            let pen = device_title(PEN_NAME_PREFIX@, device_name);
            let after = with_entry(
                with_entry(entries, enabled_entry(touch, map_to)),
                enabled_entry(pen, map_to),
            );
            &&& entry_of(after, touch) == Some(enabled_entry(touch, map_to))
            &&& entry_of(after, pen) == Some(enabled_entry(pen, map_to))
            &&& forall|n: Seq<char>|
                n != touch && n != pen ==> #[trigger] entry_of(after, n) == entry_of(entries, n)
        }),
{
    let touch = device_title(TOUCH_NAME_PREFIX@, device_name);
    let pen = device_title(PEN_NAME_PREFIX@, device_name);
    assert(touch != pen) by {
        reveal_strlit("ferrite virtual touchscreen");
        reveal_strlit("ferrite virtual pen");
        assert(touch[16] == 't' && pen[16] == 'p');
    }
    let mid = with_entry(entries, enabled_entry(touch, map_to));
    other_entries_are_kept(entries, enabled_entry(touch, map_to));
    other_entries_are_kept(mid, enabled_entry(pen, map_to));
    let after = with_entry(mid, enabled_entry(pen, map_to));
    assert forall|n: Seq<char>| n != touch && n != pen implies #[trigger] entry_of(after, n)
        == entry_of(entries, n) by {
        assert(entry_of(mid, n) == entry_of(entries, n));
    }
}

/// A device is put on an output by an entry under its name that is in use and names the output. After
/// a client's devices were written exactly two entries may have changed, those of its touchscreen and
/// of its pen tablet, and both name the same output.
pub proof fn client_entries_name_output(
    entries: Seq<Entry>,
    device_name: Seq<char>,
    map_to: Option<Seq<char>>,
    other: Entry,
)
    requires
        names_differ(entries),
    ensures
        ({
            let touch = "ferrite virtual touchscreen ("@ + device_name + ")"@;
            let pen = "ferrite virtual pen ("@ + device_name + ")"@;
            let after = with_entry(
                with_entry(
                    entries,
                    enabled_entry(device_title(TOUCH_NAME_PREFIX@, device_name), map_to),
                ),
                enabled_entry(device_title(PEN_NAME_PREFIX@, device_name), map_to),
            );
            &&& after.contains(
                Entry { name: touch, state: CosmicInputState::Enabled, map_to_output: map_to },
            )
            &&& after.contains(
                Entry { name: pen, state: CosmicInputState::Enabled, map_to_output: map_to },
            )
            &&& names_differ(after)
            &&& other.name != touch && other.name != pen ==> (after.contains(other)
                <==> entries.contains(other))
        }),
{
    let touch = "ferrite virtual touchscreen ("@ + device_name + ")"@;
    let pen = "ferrite virtual pen ("@ + device_name + ")"@;
    let t = device_title(TOUCH_NAME_PREFIX@, device_name);
    let p = device_title(PEN_NAME_PREFIX@, device_name);
    assert(t =~= touch && p =~= pen) by {
        reveal_strlit("ferrite virtual touchscreen");
        reveal_strlit("ferrite virtual pen");
        reveal_strlit("ferrite virtual touchscreen (");
        reveal_strlit("ferrite virtual pen (");
        reveal_strlit(" (");
        assert("ferrite virtual touchscreen"@ + " ("@ =~= "ferrite virtual touchscreen ("@);
        assert("ferrite virtual pen"@ + " ("@ =~= "ferrite virtual pen ("@);
    }
    assert(touch != pen) by {
        reveal_strlit("ferrite virtual touchscreen (");
        reveal_strlit("ferrite virtual pen (");
        assert(touch[16] == 't' && pen[16] == 'p');
    }
    let et = enabled_entry(t, map_to);
    let ep = enabled_entry(p, map_to);
    let mid = with_entry(entries, et);
    let after = with_entry(mid, ep);
    other_entries_are_kept(entries, et);
    other_entries_are_kept(mid, ep);
    entry_is_written(entries, et, other);
    entry_is_written(mid, ep, et);
    entry_is_written(mid, ep, other);
}

/// Writing an entry puts it in, keeps every other device's, and leaves no second one of the device.
pub proof fn entry_is_written(entries: Seq<Entry>, e: Entry, other: Entry)
    requires
        names_differ(entries),
    ensures
        with_entry(entries, e).contains(e),
        other.name != e.name ==> (with_entry(entries, e).contains(other) <==> entries.contains(
            other,
        )),
        with_entry(entries, e).contains(other) && other.name == e.name ==> other == e,
{
    let after = with_entry(entries, e);
    let i = entry_from(entries, e.name, 0);
    entry_from_is_first(entries, e.name, 0);
    assert(after[i] == e);
    if entries.contains(other) {
        let k = choose|k: int| 0 <= k < entries.len() && entries[k] == other;
        if k != i {
            assert(after[k] == other);
        }
    }
    if after.contains(other) {
        let k = choose|k: int| 0 <= k < after.len() && after[k] == other;
        if k != i {
            assert(entries[k] == other);
            if i < entries.len() {
                assert(entries[k].name != entries[i].name);
            }
        }
    }
}

} // verus!
