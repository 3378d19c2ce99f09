//! Cuts an H.264 Annex-B byte stream into access units, one wire frame each.
//!
//! The encoder puts an access unit delimiter (AUD) at the start of every access unit. A decoder that
//! receives whole access units needs no reassembly of its own.

use vstd::prelude::*;

use crate::bytes::{append_bytes, copy_range};
use crate::frame::write_frame;
use crate::message::{HostMessage, HostMsg, PixelFormat};

verus! {

/// An AUD NAL unit starts at index `i` of `s`: `00 00 00 01` or `00 00 01`, then a byte whose low
/// five bits, the NAL unit type, are 9.
pub open spec fn aud_at(s: Seq<u8>, i: int) -> bool {
    ||| 0 <= i && i + 5 <= s.len() && s[i] == 0 && s[i + 1] == 0 && s[i + 2] == 0 && s[i + 3] == 1
        && s[i + 4] & 0x1f == 9
    ||| 0 <= i && i + 4 <= s.len() && s[i] == 0 && s[i + 1] == 0 && s[i + 2] == 1 && s[i + 3] & 0x1f
        == 9
}

/// The first index from `from` on at which an AUD starts, or the length of `s` if there is none.
pub open spec fn next_aud(s: Seq<u8>, from: int) -> int
    decreases s.len() - from,
{
    if from >= s.len() {
        s.len() as int
    } else if aud_at(s, from) {
        from
    } else {
        next_aud(s, from + 1)
    }
}

/// The access units of `s` from the one that starts at `start`, without the last one, whose end has
/// not been seen.
pub open spec fn complete_units(s: Seq<u8>, start: int) -> Seq<Seq<u8>>
    decreases s.len() - start,
    when 0 <= start <= s.len()
    via complete_units_decreases
{
    let end = next_aud(s, start + 4);
    if end >= s.len() {
        seq![]
    } else {
        seq![s.subrange(start, end)] + complete_units(s, end)
    }
}

#[via_fn]
proof fn complete_units_decreases(s: Seq<u8>, start: int) {
    next_aud_is_next(s, start + 4);
}

/// Where the last access unit of `s` starts, counted from the one that starts at `start`.
pub open spec fn last_unit(s: Seq<u8>, start: int) -> int
    decreases s.len() - start,
    when 0 <= start <= s.len()
    via last_unit_decreases
{
    let end = next_aud(s, start + 4);
    if end >= s.len() {
        start
    } else {
        last_unit(s, end)
    }
}

#[via_fn]
proof fn last_unit_decreases(s: Seq<u8>, start: int) {
    next_aud_is_next(s, start + 4);
}

/// How many bytes before the first AUD are kept: one less than an AUD can take, so that one that is
/// cut by a chunk boundary is still found.
pub const LEAD: usize = 4;

/// What is kept of a stream that arrives chunk by chunk: the access unit in progress, or, before the
/// first AUD, the last few bytes.
#[verifier::ext_equal]
pub struct AuState {
    pub started: bool,
    pub acc: Seq<u8>,
}

/// The start of a stream.
pub open spec fn au_fresh() -> AuState {
    AuState { started: false, acc: seq![] }
}

/// A unit in progress starts with its only AUD. Before the first AUD no more is kept than is needed
/// to find it.
pub open spec fn au_wf(st: AuState) -> bool {
    if st.started {
        aud_at(st.acc, 0) && next_aud(st.acc, 4) == st.acc.len()
    } else {
        st.acc.len() <= LEAD && next_aud(st.acc, 0) == st.acc.len()
    }
}

/// The last bytes of `s`.
pub open spec fn lead_of(s: Seq<u8>) -> Seq<u8> {
    if s.len() <= LEAD {
        s
    } else {
        s.skip(s.len() - LEAD)
    }
}

/// Where the first access unit of `s` starts, or its length if there is none.
pub open spec fn first_unit(started: bool, s: Seq<u8>) -> int {
    if started {
        0
    } else {
        next_aud(s, 0)
    }
}

/// The access units that `chunk` completes.
pub open spec fn feed_units(st: AuState, chunk: Seq<u8>) -> Seq<Seq<u8>> {
    let s = st.acc + chunk;
    let start = first_unit(st.started, s);
    if start >= s.len() {
        seq![]
    } else {
        complete_units(s, start)
    }
}

/// What is kept after `chunk`.
pub open spec fn feed_next(st: AuState, chunk: Seq<u8>) -> AuState {
    let s = st.acc + chunk;
    let start = first_unit(st.started, s);
    if start >= s.len() {
        AuState { started: false, acc: lead_of(s) }
    } else {
        AuState { started: true, acc: s.skip(last_unit(s, start)) }
    }
}

/// The views of a list of byte vectors.
pub open spec fn views(units: Seq<Vec<u8>>) -> Seq<Seq<u8>> {
    units.map_values(|u: Vec<u8>| u@)
}

/// `next_aud` is at or behind `from`, an AUD starts there unless it is the end, and none starts
/// between.
pub proof fn next_aud_is_next(s: Seq<u8>, from: int)
    ensures
        from <= s.len() ==> from <= next_aud(s, from) <= s.len(),
        from > s.len() ==> next_aud(s, from) == s.len(),
        next_aud(s, from) < s.len() ==> aud_at(s, next_aud(s, from)),
        forall|i: int| from <= i < next_aud(s, from) ==> !aud_at(s, i),
    decreases s.len() - from,
{
    if from < s.len() && !aud_at(s, from) {
        next_aud_is_next(s, from + 1);
    }
}

/// An index with these properties is `next_aud`.
proof fn next_aud_unique(s: Seq<u8>, from: int, n: int)
    requires
        from <= n <= s.len(),
        n < s.len() ==> aud_at(s, n),
        forall|i: int| from <= i < n ==> !aud_at(s, i),
    ensures
        next_aud(s, from) == n,
{
    next_aud_is_next(s, from);
    let m = next_aud(s, from);
    if m < n {
        assert(aud_at(s, m));
    }
    if n < m {
        assert(aud_at(s, n));
    }
}

/// Finds the first AUD NAL unit (`00 00 00 01 09` or `00 00 01 09`) in `buf`. Returns the index of
/// its start code's first byte.
pub fn find_aud(buf: &[u8]) -> (found: Option<usize>)
    ensures
        match found {
            Some(i) => i < buf@.len() && aud_at(buf@, i as int) && next_aud(buf@, 0) == i,
            None => next_aud(buf@, 0) == buf@.len() && forall|i: int| !aud_at(buf@, i),
        },
{
    let len: usize = buf.len();
    let mut i: usize = 0;
    while len >= 4 && i <= len - 4
        invariant
            len == buf@.len(),
            i <= len,
            forall|j: int| j < i ==> !aud_at(buf@, j),
        decreases len - i,
    {
        if buf[i] == 0 && buf[i + 1] == 0 {
            if buf[i + 2] == 0 && buf[i + 3] == 1 {
                if len - i >= 5 && (buf[i + 4] & 0x1f) == 9 {
                    proof {
                        next_aud_unique(buf@, 0, i as int);
                    }
                    return Some(i);
                }
                i += 4;
                continue;
            } else if buf[i + 2] == 1 && (buf[i + 3] & 0x1f) == 9 {
                proof {
                    next_aud_unique(buf@, 0, i as int);
                }
                return Some(i);
            }
        }
        i += 1;
    }
    proof {
        next_aud_unique(buf@, 0, len as int);
    }
    None
}

/// Cuts a stream that arrives chunk by chunk.
#[derive(Debug)]
pub struct AuSplitter {
    acc: Vec<u8>,
    started: bool,
}

impl View for AuSplitter {
    type V = AuState;

    closed spec fn view(&self) -> AuState {
        AuState { started: self.started, acc: self.acc@ }
    }
}

impl AuSplitter {
    /// A splitter at the start of a stream.
    pub fn new() -> (splitter: AuSplitter)
        ensures
            au_wf(splitter@),
            splitter@ == au_fresh(),
    {
        let splitter = AuSplitter { acc: Vec::new(), started: false };
        assert(splitter@ =~= au_fresh());
        splitter
    }

    /// Takes the next chunk of the stream and returns the access units that it completes. Bytes
    /// before the first AUD belong to none and are dropped.
    pub fn feed(&mut self, chunk: &[u8]) -> (units: Vec<Vec<u8>>)
        requires
            au_wf(old(self)@),
        ensures
            au_wf(final(self)@),
            views(units@) == feed_units(old(self)@, chunk@),
            final(self)@ == feed_next(old(self)@, chunk@),
    {
        let ghost st = self@;
        proof {
            feed_keeps_wf(st, chunk@);
        }
        append_bytes(&mut self.acc, chunk);
        let ghost s = st.acc + chunk@;
        assert(self.acc@ =~= s);
        let mut units: Vec<Vec<u8>> = Vec::new();
        let first: Option<usize> = if self.started {
            Some(0)
        } else {
            find_aud(self.acc.as_slice())
        };
        let mut start: usize = match first {
            Some(i) => i,
            None => {
                let len: usize = self.acc.len();
                if len > LEAD {
                    let lead = copy_range(self.acc.as_slice(), len - LEAD, len);
                    assert(lead@ =~= lead_of(s));
                    self.acc = lead;
                }
                assert(views(units@) =~= seq![]);
                return units;
            },
        };
        let ghost begin = start as int;
        proof {
            if st.started {
                aud_extends(st.acc, chunk@, 0);
            }
            assert(views(units@) =~= seq![]);
        }
        loop
            invariant
                self.acc@ == s,
                begin == first_unit(st.started, s),
                begin <= start < s.len(),
                aud_at(s, start as int),
                begin < s.len(),
                complete_units(s, begin) == views(units@) + complete_units(s, start as int),
                last_unit(s, begin) == last_unit(s, start as int),
            ensures
                start == last_unit(s, begin),
                views(units@) == complete_units(s, begin),
            decreases s.len() - start,
        {
            let len: usize = self.acc.len();
            assert(start + 4 <= len);
            let rest = vstd::slice::slice_subrange(self.acc.as_slice(), start + 4, len);
            let ghost end = next_aud(s, start + 4);
            proof {
                next_aud_in_suffix(s, start + 4, 0);
                assert(rest@ =~= s.skip(start + 4));
                next_aud_is_next(s, start + 4);
            }
            match find_aud(rest) {
                Some(rel) => {
                    let next: usize = start + 4 + rel;
                    let ghost before = units@;
                    let ghost unit = s.subrange(start as int, next as int);
                    units.push(copy_range(self.acc.as_slice(), start, next));
                    proof {
                        assert(views(units@) =~= views(before).push(unit));
                        assert(views(units@) + complete_units(s, next as int) =~= views(before) + (
                        seq![unit] + complete_units(s, next as int)));
                    }
                    start = next;
                },
                None => {
                    assert(views(units@) + complete_units(s, start as int) =~= views(units@));
                    break;
                },
            }
        }
        let tail = copy_range(self.acc.as_slice(), start, self.acc.len());
        assert(tail@ =~= s.skip(start as int));
        self.acc = tail;
        self.started = true;
        units
    }

    /// The stream has ended: returns the unit in progress as the last one.
    pub fn finish(self) -> (unit: Option<Vec<u8>>)
        ensures
            match unit {
                Some(u) => self@.started && u@ == self@.acc,
                None => !self@.started,
            },
    {
        if self.started {
            Some(self.acc)
        } else {
            None
        }
    }
}

/// The wire frame that carries one access unit.
pub fn send_au(width: u32, height: u32, data: &[u8]) -> (frame: Vec<u8>)
    ensures
        frame@ == crate::frame::frame_bytes(
            crate::wire::host_bytes(
                HostMsg::VideoFrame { format: PixelFormat::H264, width, height, data: data@ },
            ),
        ),
{
    let msg = HostMessage::VideoFrame {
        format: PixelFormat::H264,
        width,
        height,
        data: copy_range(data, 0, data.len()),
    };
    assert(data@.subrange(0, data@.len() as int) =~= data@);
    let body = msg.encode();
    write_frame(body.as_slice())
}

// --- how the cut depends on the stream --------------------------------------------------------

/// Appending bytes keeps every AUD where it is and adds none to the part that is settled.
proof fn aud_extends(s: Seq<u8>, t: Seq<u8>, i: int)
    ensures
        aud_at(s, i) ==> aud_at(s + t, i),
        i + 5 <= s.len() ==> aud_at(s + t, i) == aud_at(s, i),
{
}

/// An AUD of a suffix is an AUD of the whole.
proof fn aud_in_suffix(s: Seq<u8>, k: int, i: int)
    requires
        0 <= k <= s.len(),
        0 <= i,
    ensures
        aud_at(s.skip(k), i) == aud_at(s, k + i),
{
}

/// The next AUD of a suffix is the next AUD of the whole.
proof fn next_aud_in_suffix(s: Seq<u8>, k: int, from: int)
    requires
        0 <= k <= s.len(),
        0 <= from,
        k + from <= s.len(),
    ensures
        k + next_aud(s.skip(k), from) == next_aud(s, k + from),
{
    let t = s.skip(k);
    next_aud_is_next(t, from);
    let n = next_aud(t, from);
    assert forall|i: int| k + from <= i < k + n implies !aud_at(s, i) by {
        aud_in_suffix(s, k, i - k);
    }
    if n < t.len() {
        aud_in_suffix(s, k, n);
    }
    next_aud_unique(s, k + from, k + n);
}

/// Appending bytes does not move an AUD that has been found.
proof fn next_aud_extends(s: Seq<u8>, t: Seq<u8>, from: int)
    requires
        0 <= from,
        next_aud(s, from) < s.len(),
    ensures
        next_aud(s + t, from) == next_aud(s, from),
{
    next_aud_is_next(s, from);
    let n = next_aud(s, from);
    assert forall|i: int| from <= i < n implies !aud_at(s + t, i) by {
        aud_extends(s, t, i);
    }
    aud_extends(s, t, n);
    next_aud_unique(s + t, from, n);
}

/// The units of a suffix are the units of the whole from there on.
proof fn units_in_suffix(s: Seq<u8>, k: int, start: int)
    requires
        0 <= k <= s.len(),
        0 <= start,
        k + start <= s.len(),
    ensures
        complete_units(s.skip(k), start) == complete_units(s, k + start),
        k + last_unit(s.skip(k), start) == last_unit(s, k + start),
    decreases s.len() - k - start,
{
    let t = s.skip(k);
    next_aud_is_next(s, k + start + 4);
    next_aud_is_next(t, start + 4);
    let end = next_aud(s, k + start + 4);
    if k + start + 4 <= s.len() {
        next_aud_in_suffix(s, k, start + 4);
        if end < s.len() {
            assert(s.subrange(k + start, end) =~= t.subrange(start, end - k));
            units_in_suffix(s, k, end - k);
        }
    }
}

/// The last unit starts inside the stream.
proof fn last_unit_bounds(s: Seq<u8>, start: int)
    requires
        0 <= start < s.len(),
    ensures
        start <= last_unit(s, start) < s.len(),
        aud_at(s, start) ==> aud_at(s, last_unit(s, start)),
    decreases s.len() - start,
{
    next_aud_is_next(s, start + 4);
    let end = next_aud(s, start + 4);
    if end < s.len() {
        last_unit_bounds(s, end);
    }
}

/// Appending bytes only adds to the complete units: the cut goes on from the unit in progress.
proof fn units_extend(s: Seq<u8>, t: Seq<u8>, start: int)
    requires
        0 <= start < s.len(),
    ensures
        complete_units(s + t, start) == complete_units(s, start) + complete_units(
            s + t,
            last_unit(s, start),
        ),
        last_unit(s + t, start) == last_unit(s + t, last_unit(s, start)),
    decreases s.len() - start,
{
    next_aud_is_next(s, start + 4);
    let end = next_aud(s, start + 4);
    if end < s.len() {
        next_aud_extends(s, t, start + 4);
        units_extend(s, t, end);
        last_unit_bounds(s, end);
        assert((s + t).subrange(start, end) =~= s.subrange(start, end));
        assert(complete_units(s + t, start) =~= complete_units(s, start) + complete_units(
            s + t,
            last_unit(s, start),
        ));
    } else {
        assert(seq![] + complete_units(s + t, start) =~= complete_units(s + t, start));
    }
}

/// No byte is lost, repeated or moved: the complete units and the one in progress, put together,
/// are the stream from its first AUD on.
pub proof fn units_partition_stream(s: Seq<u8>, start: int)
    requires
        0 <= start < s.len(),
    ensures
        complete_units(s, start).flatten() + s.skip(last_unit(s, start)) == s.skip(start),
    decreases s.len() - start,
{
    next_aud_is_next(s, start + 4);
    let end = next_aud(s, start + 4);
    if end < s.len() {
        let unit = s.subrange(start, end);
        let more = complete_units(s, end);
        let units = complete_units(s, start);
        units_partition_stream(s, end);
        assert(units.drop_first() =~= more);
        assert(units.flatten() =~= unit + more.flatten());
        assert(unit + s.skip(end) =~= s.skip(start));
        assert(unit + more.flatten() + s.skip(last_unit(s, end)) =~= unit + (more.flatten()
            + s.skip(last_unit(s, end))));
    } else {
        assert(complete_units(s, start).flatten() =~= seq![]);
        assert(seq![] + s.skip(start) =~= s.skip(start));
    }
}

/// Every unit is exactly one access unit: it starts with an AUD, and no further AUD starts in it
/// behind its own start code.
pub proof fn units_hold_one_aud(s: Seq<u8>, start: int, i: int)
    requires
        0 <= start < s.len(),
        aud_at(s, start),
        0 <= i < complete_units(s, start).len(),
    ensures
        aud_at(complete_units(s, start)[i], 0),
        forall|j: int| 4 <= j ==> !aud_at(complete_units(s, start)[i], j),
    decreases s.len() - start,
{
    next_aud_is_next(s, start + 4);
    let end = next_aud(s, start + 4);
    let unit = s.subrange(start, end);
    if i == 0 {
        // The AUD that ends the unit starts with a zero byte, which is no AUD's type byte: the
        // unit's own start code lies before it.
        assert(0u8 & 0x1f == 0) by (bit_vector);
        assert(aud_at(s, end));
        assert(aud_at(unit, 0));
        assert forall|j: int| 4 <= j implies !aud_at(unit, j) by {
            if aud_at(unit, j) {
                assert(aud_at(s, start + j));
            }
        }
    } else {
        units_hold_one_aud(s, end, i - 1);
    }
}

/// No AUD starts in the last unit behind its own start code.
proof fn last_unit_is_last(s: Seq<u8>, start: int)
    requires
        0 <= start < s.len(),
        aud_at(s, start),
    ensures
        ({
            let last = s.skip(last_unit(s, start));
            next_aud(last, 4) == last.len()
        }),
    decreases s.len() - start,
{
    next_aud_is_next(s, start + 4);
    let end = next_aud(s, start + 4);
    if end < s.len() {
        last_unit_is_last(s, end);
    } else {
        next_aud_in_suffix(s, start, 4);
    }
}

/// What is kept is always enough to go on from.
pub proof fn feed_keeps_wf(st: AuState, chunk: Seq<u8>)
    requires
        au_wf(st),
    ensures
        au_wf(feed_next(st, chunk)),
{
    let s = st.acc + chunk;
    let start = first_unit(st.started, s);
    next_aud_is_next(s, 0);
    if start >= s.len() {
        if s.len() > LEAD {
            next_aud_unique(s, s.len() - LEAD, s.len() as int);
            next_aud_in_suffix(s, s.len() - LEAD, 0);
        }
    } else {
        if st.started {
            aud_extends(st.acc, chunk, 0);
        }
        last_unit_bounds(s, start);
        aud_in_suffix(s, last_unit(s, start), 0);
        last_unit_is_last(s, start);
    }
}

/// How a chunk boundary falls does not matter: two chunks in a row give the same units as the two put
/// together.
pub proof fn feed_in_two_chunks(st: AuState, first: Seq<u8>, second: Seq<u8>)
    requires
        au_wf(st),
    ensures
        feed_units(st, first + second) == feed_units(st, first) + feed_units(
            feed_next(st, first),
            second,
        ),
        feed_next(st, first + second) == feed_next(feed_next(st, first), second),
{
    let s = st.acc + first;
    let all = s + second;
    let start = first_unit(st.started, s);
    assert(st.acc + (first + second) =~= all);
    next_aud_is_next(s, 0);
    if start < s.len() {
        if !st.started {
            next_aud_extends(s, second, 0);
        }
        units_extend(s, second, start);
        last_unit_bounds(s, start);
        let last = last_unit(s, start);
        assert(s.skip(last) + second =~= all.skip(last));
        units_in_suffix(all, last, 0);
        last_unit_bounds(all, last);
        assert(all.skip(last_unit(all, last)) =~= (s.skip(last) + second).skip(
            last_unit(s.skip(last) + second, 0),
        ));
    } else {
        let lead = lead_of(s);
        let k = s.len() - lead.len();
        assert(all.skip(k) =~= lead + second);
        // What is dropped is too far back for an AUD that is cut by the boundary.
        next_aud_is_next(all, k);
        assert forall|i: int| 0 <= i < next_aud(all, k) implies !aud_at(all, i) by {
            if i < k {
                aud_extends(s, second, i);
            }
        }
        next_aud_unique(all, 0, next_aud(all, k));
        next_aud_in_suffix(all, k, 0);
        let n = next_aud(all, 0);
        if n < all.len() {
            units_in_suffix(all, k, n - k);
            last_unit_bounds(all, n);
            assert(all.skip(last_unit(all, n)) =~= (lead + second).skip(
                last_unit(lead + second, n - k),
            ));
        } else {
            assert(lead_of(all) =~= lead_of(lead + second));
        }
        assert(seq![] + feed_units(feed_next(st, first), second) =~= feed_units(
            feed_next(st, first),
            second,
        ));
    }
}

/// The units that a list of chunks completes, fed one after another.
pub open spec fn feed_all_units(st: AuState, chunks: Seq<Seq<u8>>) -> Seq<Seq<u8>>
    decreases chunks.len(),
{
    if chunks.len() == 0 {
        seq![]
    } else {
        feed_units(st, chunks.first()) + feed_all_units(
            feed_next(st, chunks.first()),
            chunks.drop_first(),
        )
    }
}

/// What is kept after a list of chunks.
pub open spec fn feed_all_next(st: AuState, chunks: Seq<Seq<u8>>) -> AuState
    decreases chunks.len(),
{
    if chunks.len() == 0 {
        st
    } else {
        feed_all_next(feed_next(st, chunks.first()), chunks.drop_first())
    }
}

/// One frame per access unit, whatever the read sizes were: the units that are cut from a stream
/// depend on its bytes alone, from its very first byte on and from any point on.
pub proof fn stream_ignores_chunking(st: AuState, chunks: Seq<Seq<u8>>)
    requires
        au_wf(st),
    ensures
        feed_all_units(st, chunks) == feed_units(st, chunks.flatten()),
        feed_all_next(st, chunks) == feed_next(st, chunks.flatten()),
    decreases chunks.len(),
{
    if chunks.len() == 0 {
        assert(chunks.flatten() =~= seq![]);
        assert(st.acc + seq![] =~= st.acc);
        assert(st.acc.skip(0) =~= st.acc);
        assert(feed_next(st, seq![]) =~= st);
    } else {
        let head = chunks.first();
        let tail = chunks.drop_first();
        feed_keeps_wf(st, head);
        stream_ignores_chunking(feed_next(st, head), tail);
        feed_in_two_chunks(st, head, tail.flatten());
        assert(chunks.flatten() =~= head + tail.flatten());
    }
}

/// A stream that is read to its end is sent whole, from its first AUD on: the units of all chunks and
/// the one that is left at the end, put together, are the stream without what comes before that AUD.
pub proof fn whole_stream_is_sent(chunks: Seq<Seq<u8>>)
    ensures
        ({
            let s = chunks.flatten();
            let end = feed_all_next(au_fresh(), chunks);
            &&& end.started <==> next_aud(s, 0) < s.len()
            &&& end.started ==> feed_all_units(au_fresh(), chunks).flatten() + end.acc == s.skip(
                next_aud(s, 0),
            )
            &&& !end.started ==> feed_all_units(au_fresh(), chunks) == Seq::<Seq<u8>>::empty()
        }),
{
    let s = chunks.flatten();
    stream_ignores_chunking(au_fresh(), chunks);
    assert(au_fresh().acc + s =~= s);
    next_aud_is_next(s, 0);
    if next_aud(s, 0) < s.len() {
        units_partition_stream(s, next_aud(s, 0));
    }
}

// --- the cut of a stream of NAL units ------------------------------------------------------------

/// A NAL unit as an encoder writes it: behind a start code of four bytes or of three.
pub struct Nal {
    pub long: bool,
    pub body: Seq<u8>,
}

/// A NAL unit is not empty, does not end in a zero byte, and holds no start code.
pub open spec fn nal_ok(n: Nal) -> bool {
    &&& n.body.len() > 0
    &&& n.body.last() != 0
    &&& forall|i: int|
        0 <= i && i + 2 < n.body.len() && n.body[i] == 0 && n.body[i + 1] == 0
            ==> #[trigger] n.body[i + 2] > 2
}

/// The type of a NAL unit: the low five bits of its first byte.
pub open spec fn nal_type(n: Nal) -> int {
    n.body[0] as int % 32
}

/// The start code of a NAL unit.
pub open spec fn start_code(n: Nal) -> Seq<u8> {
    if n.long {
        seq![0u8, 0, 0, 1]
    } else {
        seq![0u8, 0, 1]
    }
}

/// The bytes of some NAL units, one behind the other.
pub open spec fn nal_bytes(nals: Seq<Nal>) -> Seq<u8>
    decreases nals.len(),
{
    if nals.len() == 0 {
        seq![]
    } else {
        start_code(nals[0]) + nals[0].body + nal_bytes(nals.drop_first())
    }
}

/// NAL units of any type but that of a delimiter.
pub open spec fn no_delimiter(nals: Seq<Nal>) -> bool {
    forall|i: int| 0 <= i < nals.len() ==> nal_ok(#[trigger] nals[i]) && nal_type(nals[i]) != 9
}

/// The NAL units of one access unit: a delimiter, then others.
pub open spec fn access_unit(nals: Seq<Nal>) -> bool {
    &&& nals.len() > 0
    &&& nal_ok(nals[0])
    &&& nal_type(nals[0]) == 9
    &&& no_delimiter(nals.drop_first())
}

/// The bytes of each of some access units.
pub open spec fn unit_bytes(units: Seq<Seq<Nal>>) -> Seq<Seq<u8>> {
    units.map_values(|u: Seq<Nal>| nal_bytes(u))
}

/// Masking the low five bits is taking the remainder.
proof fn low_five_bits(b: u8)
    ensures
        (b & 0x1f) as int == b as int % 32,
{
    assert(b & 0x1f == b % 32) by (bit_vector);
}

/// An AUD starts exactly where a start code of three or four zeros and a one is followed by a byte
/// whose low five bits are 9.
pub proof fn aud_is_delimiter(s: Seq<u8>, i: int)
    ensures
        aud_at(s, i) <==> 0 <= i && ({
            ||| i + 3 < s.len() && s[i] == 0 && s[i + 1] == 0 && s[i + 2] == 1 && s[i + 3] as int
                % 32 == 9
            ||| i + 4 < s.len() && s[i] == 0 && s[i + 1] == 0 && s[i + 2] == 0 && s[i + 3] == 1
                && s[i + 4] as int % 32 == 9
        }),
{
    if 0 <= i && i + 3 < s.len() {
        low_five_bits(s[i + 3]);
    }
    if 0 <= i && i + 4 < s.len() {
        low_five_bits(s[i + 4]);
    }
}

/// Where an AUD can start within the first of some NAL units.
proof fn aud_in_nal(n: Nal, r: Seq<u8>, i: int)
    requires
        nal_ok(n),
        0 <= i < start_code(n).len() + n.body.len(),
    ensures
        aud_at(start_code(n) + n.body + r, i) ==> nal_type(n) == 9 && i <= 1,
        nal_type(n) == 9 ==> aud_at(start_code(n) + n.body + r, 0),
{
    let c = start_code(n).len() as int;
    let nb = start_code(n) + n.body;
    let s = nb + r;
    assert(s[c] == n.body[0]);
    assert(forall|j: int| 0 <= j < n.body.len() ==> s[c + j] == #[trigger] n.body[j]);
    assert(s[c - 1] == 1 && s[c - 2] == 0 && s[c - 3] == 0);
    aud_is_delimiter(s, 0);
    aud_is_delimiter(s, i);
    if i + 2 < s.len() && s[i] == 0 && s[i + 1] == 0 && i >= c {
        // Both zeros lie in the body, and so does the byte behind them.
        assert(s[i] == n.body[i - c]);
        assert(i + 1 < nb.len());
        assert(s[i + 1] == n.body[i + 1 - c]);
        assert(i + 2 < nb.len());
        assert(n.body[(i - c) + 2] > 2);
    }
}

/// No AUD starts in NAL units of other types.
proof fn no_aud_without_delimiter(nals: Seq<Nal>, r: Seq<u8>, i: int)
    requires
        no_delimiter(nals),
        0 <= i < nal_bytes(nals).len(),
    ensures
        !aud_at(nal_bytes(nals) + r, i),
    decreases nals.len(),
{
    if nals.len() > 0 {
        let n = nals[0];
        let rest = nal_bytes(nals.drop_first());
        let head = start_code(n) + n.body;
        let s = nal_bytes(nals) + r;
        assert(s =~= head + (rest + r));
        assert(no_delimiter(nals.drop_first()));
        if i < head.len() {
            aud_in_nal(n, rest + r, i);
        } else {
            assert(s.skip(head.len() as int) =~= rest + r);
            aud_in_suffix(s, head.len() as int, i - head.len());
            no_aud_without_delimiter(nals.drop_first(), r, i - head.len());
        }
    }
}

/// In an access unit an AUD starts at its beginning, and none behind that start code.
proof fn aud_in_unit(u: Seq<Nal>, r: Seq<u8>)
    requires
        access_unit(u),
    ensures
        nal_bytes(u).len() >= 4,
        aud_at(nal_bytes(u) + r, 0),
        forall|i: int| 4 <= i < nal_bytes(u).len() ==> !aud_at(nal_bytes(u) + r, i),
{
    let n = u[0];
    let rest = nal_bytes(u.drop_first());
    let head = start_code(n) + n.body;
    let s = nal_bytes(u) + r;
    assert(s =~= head + (rest + r));
    aud_in_nal(n, rest + r, 0);
    assert forall|i: int| 4 <= i < nal_bytes(u).len() implies !aud_at(s, i) by {
        if i < head.len() {
            aud_in_nal(n, rest + r, i);
        } else {
            assert(s.skip(head.len() as int) =~= rest + r);
            aud_in_suffix(s, head.len() as int, i - head.len());
            no_aud_without_delimiter(u.drop_first(), r, i - head.len());
        }
    }
}

/// The cut of a stream of access units, from its first one on.
proof fn units_are_cut(units: Seq<Seq<Nal>>)
    requires
        units.len() > 0,
        forall|k: int| 0 <= k < units.len() ==> access_unit(#[trigger] units[k]),
    ensures
        ({
            let s = unit_bytes(units).flatten();
            &&& s.len() > 0
            &&& aud_at(s, 0)
            &&& complete_units(s, 0) == unit_bytes(units).drop_last()
            &&& s.skip(last_unit(s, 0)) == unit_bytes(units).last()
        }),
    decreases units.len(),
{
    let all = unit_bytes(units);
    let s = all.flatten();
    let u = units[0];
    let ub = nal_bytes(u);
    let more = units.drop_first();
    let r = unit_bytes(more).flatten();
    assert(all.drop_first() =~= unit_bytes(more));
    assert(all.first() == ub);
    assert(s =~= ub + r);
    assert(access_unit(units[0]));
    aud_in_unit(u, r);
    if more.len() == 0 {
        assert(unit_bytes(more) =~= seq![]);
        assert(r =~= seq![]);
        next_aud_unique(s, 4, s.len() as int);
        assert(all.drop_last() =~= seq![]);
        assert(s.skip(0) =~= all.last());
    } else {
        assert forall|k: int| 0 <= k < more.len() implies access_unit(#[trigger] more[k]) by {
            assert(more[k] == units[k + 1]);
        }
        units_are_cut(more);
        let end = ub.len() as int;
        assert(s.skip(end) =~= r);
        aud_in_suffix(s, end, 0);
        next_aud_unique(s, 4, end);
        assert(s.subrange(0, end) =~= ub);
        units_in_suffix(s, end, 0);
        last_unit_bounds(r, 0);
        last_unit_bounds(s, end);
        assert(complete_units(s, 0) =~= seq![ub] + unit_bytes(more).drop_last());
        assert(all.drop_last() =~= seq![ub] + unit_bytes(more).drop_last());
        assert(s.skip(last_unit(s, 0)) =~= r.skip(last_unit(r, 0)));
        assert(all.last() == unit_bytes(more).last());
    }
}

/// A stream is cut at its access unit delimiters and nowhere else: from a stream of access units,
/// each a delimiter followed by NAL units of other types, however it is read and whatever NAL units
/// of other types come before it, exactly those access units are cut.
pub proof fn access_units_are_found(lead: Seq<Nal>, units: Seq<Seq<Nal>>, chunks: Seq<Seq<u8>>)
    requires
        no_delimiter(lead),
        units.len() > 0,
        forall|k: int| 0 <= k < units.len() ==> access_unit(#[trigger] units[k]),
        chunks.flatten() == nal_bytes(lead) + unit_bytes(units).flatten(),
    ensures
        feed_all_units(au_fresh(), chunks) == unit_bytes(units).drop_last(),
        feed_all_next(au_fresh(), chunks) == (AuState {
            started: true,
            acc: unit_bytes(units).last(),
        }),
{
    let r = unit_bytes(units).flatten();
    let s = chunks.flatten();
    let k = nal_bytes(lead).len() as int;
    stream_ignores_chunking(au_fresh(), chunks);
    assert(au_fresh().acc + s =~= s);
    units_are_cut(units);
    assert(s.skip(k) =~= r);
    aud_in_suffix(s, k, 0);
    assert forall|i: int| 0 <= i < k implies !aud_at(s, i) by {
        no_aud_without_delimiter(lead, r, i);
    }
    next_aud_unique(s, 0, k);
    units_in_suffix(s, k, 0);
    last_unit_bounds(r, 0);
    last_unit_bounds(s, k);
    assert(s.skip(last_unit(s, k)) =~= r.skip(last_unit(r, 0)));
}

/// NAL units without a delimiter give no access unit.
pub proof fn nothing_is_cut_without_delimiter(lead: Seq<Nal>, chunks: Seq<Seq<u8>>)
    requires
        no_delimiter(lead),
        chunks.flatten() == nal_bytes(lead),
    ensures
        feed_all_units(au_fresh(), chunks) == Seq::<Seq<u8>>::empty(),
        !feed_all_next(au_fresh(), chunks).started,
{
    let s = chunks.flatten();
    stream_ignores_chunking(au_fresh(), chunks);
    assert(au_fresh().acc + s =~= s);
    assert forall|i: int| 0 <= i < s.len() implies !aud_at(s, i) by {
        no_aud_without_delimiter(lead, seq![], i);
        assert(nal_bytes(lead) + seq![] =~= s);
    }
    next_aud_unique(s, 0, s.len() as int);
}

} // verus!
