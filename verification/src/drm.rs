//! Display connectors, as the kernel lists them: `card0-HDMI-A-2` is connector `HDMI-A-2` of card
//! `card0`.

use vstd::prelude::*;

use crate::encoder::string_views;
use crate::text::{
    char_range, chars_eq, chars_of, contains, find_char, lines, precedes, starts_with, string_of,
    trim,
};
use crate::text::{
    char_views, comes_before, find_from, has_part, has_prefix, lines_of, order_is_strict,
    order_is_total, order_is_transitive, trimmed,
};

verus! {

/// Card and connector of a directory entry.
pub open spec fn connector_parts(name: Seq<char>) -> Option<(Seq<char>, Seq<char>)> {
    let dash = find_from(name, '-', 0);
    if has_prefix(name, "card"@) && dash < name.len() {
        Some((name.take(dash), name.skip(dash + 1)))
    } else {
        None
    }
}

/// Splits the name of a directory entry.
fn split_connector(name: &[char]) -> (parts: Option<(Vec<char>, Vec<char>)>)
    ensures
        match parts {
            Some((card, connector)) => connector_parts(name@) == Some((card@, connector@)),
            None => connector_parts(name@) is None,
        },
{
    let prefix = chars_of("card");
    if !starts_with(name, prefix.as_slice()) {
        return None;
    }
    let dash: usize = find_char(name, '-', 0);
    if dash >= name.len() {
        return None;
    }
    let card = char_range(name, 0, dash);
    let connector = char_range(name, dash + 1, name.len());
    assert(card@ =~= name@.take(dash as int));
    assert(connector@ =~= name@.skip(dash + 1));
    Some((card, connector))
}

/// The card of a directory entry that is a connector.
pub fn card_of(name: &str) -> (card: Option<String>)
    ensures
        match card {
            Some(c) => connector_parts(name@) matches Some((card, _)) && c@ == card,
            None => connector_parts(name@) is None,
        },
{
    let chars = chars_of(name);
    match split_connector(chars.as_slice()) {
        Some((card, _)) => Some(string_of(card.as_slice())),
        None => None,
    }
}

// --- the connector of a virtual monitor -----------------------------------------------------------

/// A directory entry: its name, the text of its status, and the text of its card's `uevent` file.
/// What could not be read is empty.
#[derive(Debug)]
pub struct DrmEntry {
    pub name: String,
    pub status: String,
    pub uevent: String,
}

/// A line of the text is `line`.
pub open spec fn has_line(text: Seq<char>, line: Seq<char>) -> bool {
    exists|i: int| 0 <= i < lines_of(text).len() && #[trigger] lines_of(text)[i] == line
}

/// The connector of a directory entry, if a monitor of the evdi driver is connected to it.
pub open spec fn evdi_connector(e: DrmEntry) -> Option<Seq<char>> {
    match connector_parts(e.name@) {
        Some((_, connector)) => if trimmed(e.status@) == "connected"@ && has_line(
            e.uevent@,
            "DRIVER=evdi"@,
        ) {
            Some(connector)
        } else {
            None
        },
        None => None,
    }
}

/// Whether a line of the text is `line`.
fn any_line(text: &str, line: &str) -> (found: bool)
    ensures
        found == has_line(text@, line@),
{
    let chars = chars_of(text);
    let wanted = chars_of(line);
    let all = lines(chars.as_slice());
    let ghost views = lines_of(text@);
    let mut i: usize = 0;
    while i < all.len()
        invariant
            i <= all@.len(),
            wanted@ == line@,
            views == lines_of(text@),
            views == char_views(all@),
            forall|j: int| 0 <= j < i ==> #[trigger] views[j] != line@,
        decreases all@.len() - i,
    {
        assert(views[i as int] == all@[i as int]@);
        if chars_eq(all[i].as_slice(), wanted.as_slice()) {
            assert(lines_of(text@)[i as int] == line@);
            return true;
        }
        i += 1;
    }
    assert(views.len() == all@.len());
    false
}

/// The connector of a directory entry, if a monitor of the evdi driver is connected to it.
fn connector_if_evdi(e: &DrmEntry) -> (connector: Option<String>)
    ensures
        match connector {
            Some(c) => evdi_connector(*e) == Some(c@),
            None => evdi_connector(*e) is None,
        },
{
    let name = chars_of(e.name.as_str());
    let (_, connector) = match split_connector(name.as_slice()) {
        Some(parts) => parts,
        None => return None,
    };
    let status = chars_of(e.status.as_str());
    let word = trim(status.as_slice());
    let connected = chars_of("connected");
    if !chars_eq(word.as_slice(), connected.as_slice()) {
        return None;
    }
    if any_line(e.uevent.as_str(), "DRIVER=evdi") {
        Some(string_of(connector.as_slice()))
    } else {
        None
    }
}

/// The first connector with a monitor of the evdi driver.
pub fn scan_evdi_connector(entries: &[DrmEntry]) -> (connector: Option<String>)
    ensures
        match connector {
            Some(c) => exists|i: int|
                0 <= i < entries@.len() && #[trigger] evdi_connector(entries@[i]) == Some(c@)
                    && forall|j: int|
                    0 <= j < i ==> #[trigger] evdi_connector(entries@[j]) is None,
            None => forall|j: int|
                0 <= j < entries@.len() ==> #[trigger] evdi_connector(entries@[j]) is None,
        },
{
    let mut i: usize = 0;
    while i < entries.len()
        invariant
            i <= entries@.len(),
            forall|j: int| 0 <= j < i ==> #[trigger] evdi_connector(entries@[j]) is None,
        decreases entries@.len() - i,
    {
        if let Some(c) = connector_if_evdi(&entries[i]) {
            assert(evdi_connector(entries@[i as int]) == Some(c@));
            return Some(c);
        }
        i += 1;
    }
    None
}

// --- all connectors -------------------------------------------------------------------------------

/// The output that a directory entry stands for. Writeback connectors are none.
pub open spec fn output_of(name: Seq<char>) -> Option<Seq<char>> {
    match connector_parts(name) {
        Some((_, connector)) => if has_part(connector, "Writeback"@) {
            None
        } else {
            Some(connector)
        },
        None => None,
    }
}

/// `s` is the output of one of the first `n` directory entries.
pub open spec fn is_output(names: Seq<Seq<char>>, n: int, s: Seq<char>) -> bool {
    exists|i: int| 0 <= i < n && #[trigger] output_of(names[i]) == Some(s)
}

/// Each text comes before all that follow it, so that none occurs twice.
pub open spec fn in_order(v: Seq<Seq<char>>) -> bool {
    forall|i: int, j: int| 0 <= i < j < v.len() ==> comes_before(#[trigger] v[i], #[trigger] v[j])
}

/// Inserts a text at its place among texts in order, unless it is there.
fn insert_sorted(v: &mut Vec<Vec<char>>, item: Vec<char>)
    requires
        in_order(char_views(old(v)@)),
    ensures
        in_order(char_views(final(v)@)),
        forall|s: Seq<char>| #[trigger]
            char_views(final(v)@).contains(s) <==> char_views(old(v)@).contains(s) || s == item@,
{
    let ghost before = char_views(v@);
    let len: usize = v.len();
    let mut i: usize = 0;
    while i < len && precedes(v[i].as_slice(), item.as_slice())
        invariant
            i <= len,
            len == v@.len(),
            before == char_views(v@),
            forall|j: int| 0 <= j < i ==> comes_before(#[trigger] before[j], item@),
        decreases len - i,
    {
        assert(before[i as int] == v@[i as int]@);
        i += 1;
    }
    if i < len && chars_eq(v[i].as_slice(), item.as_slice()) {
        assert(before[i as int] == item@);
        assert(before.contains(item@));
        return ;
    }
    let ghost text = item@;
    v.insert(i, item);
    proof {
        let after = char_views(v@);
        assert(after =~= before.insert(i as int, text));
        assert forall|j: int| i <= j < before.len() implies comes_before(
            text,
            #[trigger] before[j],
        ) by {
            order_is_total(before[i as int], text);
            if j > i {
                order_is_transitive(text, before[i as int], before[j]);
            }
        }
        assert forall|a: int, b: int| 0 <= a < b < after.len() implies comes_before(
            #[trigger] after[a],
            #[trigger] after[b],
        ) by {
            let x = if a < i {
                a
            } else {
                a - 1
            };
            let y = if b < i {
                b
            } else {
                b - 1
            };
            if a == i {
                assert(after[b] == before[y]);
            } else if b == i {
                assert(after[a] == before[x]);
            } else {
                assert(after[a] == before[x] && after[b] == before[y]);
            }
        }
        assert forall|s: Seq<char>| #[trigger]
            after.contains(s) <==> before.contains(s) || s == text by {
            if before.contains(s) {
                let k = choose|k: int| 0 <= k < before.len() && before[k] == s;
                assert(after[if k < i {
                    k
                } else {
                    k + 1
                }] == s);
            }
            if s == text {
                assert(after[i as int] == s);
            }
            if after.contains(s) {
                let k = choose|k: int| 0 <= k < after.len() && after[k] == s;
                if k != i {
                    assert(before[if k < i {
                        k
                    } else {
                        k - 1
                    }] == s);
                }
            }
        }
    }
}

/// The outputs of all connectors, connected or not, each once and in order.
pub fn list_outputs(names: &[String]) -> (outputs: Vec<String>)
    ensures
        in_order(string_views(outputs@)),
        forall|s: Seq<char>| #[trigger]
            string_views(outputs@).contains(s) <==> is_output(
                string_views(names@),
                names@.len() as int,
                s,
            ),
{
    let ghost all = string_views(names@);
    let mut sorted: Vec<Vec<char>> = Vec::new();
    let writeback = chars_of("Writeback");
    let mut i: usize = 0;
    while i < names.len()
        invariant
            i <= names@.len(),
            all == string_views(names@),
            writeback@ == "Writeback"@,
            in_order(char_views(sorted@)),
            forall|s: Seq<char>| #[trigger]
                char_views(sorted@).contains(s) <==> is_output(all, i as int, s),
        decreases names@.len() - i,
    {
        let name = chars_of(names[i].as_str());
        assert(all[i as int] == names@[i as int]@);
        let ghost before = char_views(sorted@);
        if let Some((_, connector)) = split_connector(name.as_slice()) {
            if !contains(connector.as_slice(), writeback.as_slice()) {
                insert_sorted(&mut sorted, connector);
            }
        }
        proof {
            let after = char_views(sorted@);
            assert forall|s: Seq<char>| #[trigger] after.contains(s) <==> is_output(
                all,
                i + 1,
                s,
            ) by {
                if is_output(all, i + 1, s) && !is_output(all, i as int, s) {
                    assert(output_of(all[i as int]) == Some(s));
                }
                if is_output(all, i as int, s) {
                    assert(before.contains(s));
                    let k = choose|k: int|
                        0 <= k < i && #[trigger] output_of(all[k]) == Some(s);
                    assert(0 <= k < i + 1 && output_of(all[k]) == Some(s));
                }
            }
        }
        i += 1;
    }
    let mut outputs: Vec<String> = Vec::new();
    let mut k: usize = 0;
    while k < sorted.len()
        invariant
            k <= sorted@.len(),
            string_views(outputs@) == char_views(sorted@).take(k as int),
        decreases sorted@.len() - k,
    {
        let s = string_of(sorted[k].as_slice());
        let ghost before = outputs@;
        let ghost text = s@;
        outputs.push(s);
        assert(string_views(outputs@) =~= string_views(before).push(text));
        k += 1;
        assert(string_views(outputs@) =~= char_views(sorted@).take(k as int));
    }
    assert(string_views(outputs@) =~= char_views(sorted@));
    outputs
}

/// There is only one list of outputs in order with given members.
pub proof fn ordered_list_is_unique(a: Seq<Seq<char>>, b: Seq<Seq<char>>)
    requires
        in_order(a),
        in_order(b),
        forall|s: Seq<char>| #[trigger] a.contains(s) <==> b.contains(s),
    ensures
        a == b,
    decreases a.len(),
{
    if a.len() == 0 {
        if b.len() > 0 {
            assert(b.contains(b[0]));
            assert(a.contains(b[0]));
        }
        assert(a =~= b);
    } else {
        let x = a.last();
        assert(a[a.len() - 1] == x);
        assert(a.contains(x));
        assert(b.contains(x));
        let k = choose|k: int| 0 <= k < b.len() && b[k] == x;
        let y = b.last();
        assert(b[b.len() - 1] == y);
        assert(b.contains(y));
        assert(a.contains(y));
        let m = choose|m: int| 0 <= m < a.len() && a[m] == y;
        if k < b.len() - 1 {
            // Then the last of `b` would come after the last of `a`, but it is in `a`.
            assert(comes_before(b[k], b[b.len() - 1]));
            if m < a.len() - 1 {
                assert(comes_before(a[m], a[a.len() - 1]));
                order_is_strict(x, y);
            } else {
                order_is_strict(x, y);
            }
        }
        assert(x == y);
        let a1 = a.drop_last();
        let b1 = b.drop_last();
        assert forall|s: Seq<char>| #[trigger] a1.contains(s) <==> b1.contains(s) by {
            if a1.contains(s) {
                let i = choose|i: int| 0 <= i < a1.len() && a1[i] == s;
                assert(comes_before(a[i], a[a.len() - 1]));
                order_is_strict(s, x);
                assert(a[i] == s);
                assert(a.contains(s));
                assert(b.contains(s));
                let j = choose|j: int| 0 <= j < b.len() && b[j] == s;
                assert(b1[j] == s);
            }
            if b1.contains(s) {
                let i = choose|i: int| 0 <= i < b1.len() && b1[i] == s;
                assert(comes_before(b[i], b[b.len() - 1]));
                order_is_strict(s, x);
                assert(b[i] == s);
                assert(b.contains(s));
                assert(a.contains(s));
                let j = choose|j: int| 0 <= j < a.len() && a[j] == s;
                assert(a1[j] == s);
            }
        }
        ordered_list_is_unique(a1, b1);
        assert(a =~= a1.push(x));
        assert(b =~= b1.push(x));
    }
}

// --- what a name says -----------------------------------------------------------------------------

/// The name of a connector is that of its card, a dash, and the connector's own: it is split at the
/// first dash, and only a name that starts with `card` and holds a dash is one.
pub proof fn connector_name_is_split(name: Seq<char>, number: Seq<char>, connector: Seq<char>)
    requires
        forall|i: int| 0 <= i < number.len() ==> #[trigger] number[i] != '-',
    ensures
        connector_parts("card"@ + number + "-"@ + connector) == Some(
            ("card"@ + number, connector),
        ),
        connector_parts(name) is Some ==> name.len() >= 5 && name[0] == 'c' && name[1] == 'a'
            && name[2] == 'r' && name[3] == 'd' && name.contains('-'),
        connector_parts(name) matches Some((card, rest)) ==> name == card + "-"@ + rest
            && !card.contains('-'),
{
    reveal_strlit("card");
    reveal_strlit("-");
    let full = "card"@ + number + "-"@ + connector;
    let n = 4 + number.len() as int;
    assert forall|i: int| 0 <= i < n implies full[i] != '-' by {
        if i >= 4 {
            assert(full[i] == number[i - 4]);
        }
    }
    assert(full[n] == '-');
    crate::text::find_from_is_first(full, '-', 0);
    let dash = find_from(full, '-', 0);
    assert(dash == n);
    assert(full.take(4) =~= "card"@);
    assert(full.take(n) =~= "card"@ + number);
    assert(full.skip(n + 1) =~= connector);
    crate::text::find_from_is_first(name, '-', 0);
    let d = find_from(name, '-', 0);
    if connector_parts(name) is Some {
        assert(name.take(4)[0] == 'c' && name.take(4)[1] == 'a' && name.take(4)[2] == 'r'
            && name.take(4)[3] == 'd');
        assert(name[d] == '-');
        assert(name =~= name.take(d) + "-"@ + name.skip(d + 1));
        if name.take(d).contains('-') {
            let i = choose|i: int| 0 <= i < d && name.take(d)[i] == '-';
            assert(name[i] == '-');
        }
    }
}

/// A client's monitor is recognised by what the kernel says of its connector: that something is
/// connected, and that the card is driven by evdi. Anything else is passed over.
pub proof fn only_connected_evdi_monitors_count(e: DrmEntry, c: Seq<char>)
    ensures
        evdi_connector(e) == Some(c) <==> {
            &&& connector_parts(e.name@) matches Some((_, connector)) && connector == c
            &&& trimmed(e.status@) == "connected"@
            &&& lines_of(e.uevent@).contains("DRIVER=evdi"@)
        },
{
    let line = "DRIVER=evdi"@;
    let all = lines_of(e.uevent@);
    if all.contains(line) {
        let i = choose|i: int| 0 <= i < all.len() && all[i] == line;
        assert(all[i] == line);
        assert(has_line(e.uevent@, line));
    }
    if has_line(e.uevent@, line) {
        let i = choose|i: int| 0 <= i < all.len() && #[trigger] all[i] == line;
        assert(all[i] == line);
    }
}

/// Every connector is offered as an output, whatever is connected to it, but for those that write
/// back.
pub proof fn every_connector_is_an_output(names: Seq<Seq<char>>, c: Seq<char>)
    ensures
        is_output(names, names.len() as int, c) <==> exists|i: int|
            0 <= i < names.len() && (#[trigger] connector_parts(names[i]) matches Some((_, connector))
                && connector == c && !has_part(c, "Writeback"@)),
{
    if is_output(names, names.len() as int, c) {
        let i = choose|i: int| 0 <= i < names.len() && #[trigger] output_of(names[i]) == Some(c);
        assert(connector_parts(names[i]) is Some);
    }
    if exists|i: int|
        0 <= i < names.len() && (#[trigger] connector_parts(names[i]) matches Some((_, connector))
            && connector == c && !has_part(c, "Writeback"@)) {
        let i = choose|i: int|
            0 <= i < names.len() && (#[trigger] connector_parts(names[i]) matches Some(
                (_, connector),
            ) && connector == c && !has_part(c, "Writeback"@));
        assert(output_of(names[i]) == Some(c));
    }
}

} // verus!
