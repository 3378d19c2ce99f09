//! Byte-stream framing: the preamble that opens a session and the length prefix of every frame.

use vstd::prelude::*;

use crate::bytes::{append_bytes, copy_range};

verus! {

broadcast use crate::bytes::be_u32_len;

// --- preamble ---------------------------------------------------------------------------------

/// Number of bytes in the magic that a preamble starts with.
pub const MAGIC_LEN: usize = 8;

/// Number of filler bytes behind the magic.
pub const PREAMBLE_FILLER_LEN: usize = 503;

/// The filler byte.
pub const PREAMBLE_FILLER: u8 = 0xA5;

/// The magic: `FERRITE` and a zero byte.
pub open spec fn magic() -> Seq<u8> {
    seq![0x46u8, 0x45u8, 0x52u8, 0x52u8, 0x49u8, 0x54u8, 0x45u8, 0x00u8]
}

/// The preamble that the host writes at the start of a session: the magic and its filler.
pub open spec fn preamble() -> Seq<u8> {
    magic() + Seq::new(PREAMBLE_FILLER_LEN as nat, |i: int| PREAMBLE_FILLER)
}

/// The byte at position `i` of the magic.
fn magic_byte(i: usize) -> (b: u8)
    requires
        i < MAGIC_LEN,
    ensures
        b == magic()[i as int],
{
    let bytes: [u8; 8] = [0x46, 0x45, 0x52, 0x52, 0x49, 0x54, 0x45, 0x00];
    bytes[i]
}

/// The preamble. It is one byte short of a full-size USB packet, so a transfer of it ends in a
/// short packet.
pub fn sync_preamble() -> (bytes: Vec<u8>)
    ensures
        bytes@ == preamble(),
        bytes@.len() == 511,
{
    let mut bytes: Vec<u8> = Vec::with_capacity(MAGIC_LEN + PREAMBLE_FILLER_LEN);
    for i in 0..MAGIC_LEN
        invariant
            bytes@ == magic().take(i as int),
    {
        bytes.push(magic_byte(i));
        assert(bytes@ =~= magic().take(i + 1));
    }
    assert(bytes@ =~= magic());
    for i in 0..PREAMBLE_FILLER_LEN
        invariant
            bytes@ == magic() + Seq::new(i as nat, |j: int| PREAMBLE_FILLER),
    {
        bytes.push(PREAMBLE_FILLER);
        assert(bytes@ =~= magic() + Seq::new((i + 1) as nat, |j: int| PREAMBLE_FILLER));
    }
    bytes
}

/// A magic ends right before index `e` of `s`.
pub open spec fn magic_ends_at(s: Seq<u8>, e: int) -> bool {
    MAGIC_LEN <= e <= s.len() && s.subrange(e - MAGIC_LEN, e) == magic()
}

/// `e` is where the first magic in `s` ends.
pub open spec fn first_magic_end(s: Seq<u8>, e: int) -> bool {
    magic_ends_at(s, e) && forall|d: int| d < e ==> !magic_ends_at(s, d)
}

/// No magic in `s`.
pub open spec fn no_magic(s: Seq<u8>) -> bool {
    forall|e: int| !magic_ends_at(s, e)
}

/// The last `k` bytes of `s` are the first `k` of the magic.
pub open spec fn ends_with_magic_start(s: Seq<u8>, k: int) -> bool {
    0 <= k <= s.len() && k <= MAGIC_LEN && s.subrange(s.len() - k, s.len() as int) == magic().take(
        k,
    )
}

/// `k` is the largest number of bytes at the end of `s` that may grow into a magic.
pub open spec fn magic_progress(s: Seq<u8>, k: int) -> bool {
    k < MAGIC_LEN && ends_with_magic_start(s, k) && forall|j: int|
        k < j < MAGIC_LEN ==> !ends_with_magic_start(s, j)
}

/// A search for the magic in a stream that arrives piece by piece.
#[derive(Debug)]
pub struct SyncScanner {
    matched: usize,
}

impl SyncScanner {
    /// How many bytes of the magic the stream ends with so far.
    pub closed spec fn matched(self) -> int {
        self.matched as int
    }

    /// The scanner never counts more bytes than the magic has.
    pub open spec fn wf(self) -> bool {
        0 <= self.matched() <= MAGIC_LEN
    }

    /// A search at the start of a stream.
    pub fn new() -> (scanner: SyncScanner)
        ensures
            scanner.wf(),
            scanner.matched() == 0,
    {
        SyncScanner { matched: 0 }
    }
}

/// Takes the next byte after `seen`, of which `k` bytes may grow into a magic.
proof fn progress_step(seen: Seq<u8>, k: int, b: u8)
    requires
        magic_progress(seen, k),
        no_magic(seen),
    ensures
        b == magic()[k] && k + 1 == MAGIC_LEN ==> first_magic_end(
            seen.push(b),
            seen.len() as int + 1,
        ),
        b == magic()[k] && k + 1 < MAGIC_LEN ==> no_magic(seen.push(b)) && magic_progress(
            seen.push(b),
            k + 1,
        ),
        b != magic()[k] && b == magic()[0] ==> no_magic(seen.push(b)) && magic_progress(
            seen.push(b),
            1,
        ),
        b != magic()[k] && b != magic()[0] ==> no_magic(seen.push(b)) && magic_progress(
            seen.push(b),
            0,
        ),
{
    let next = seen.push(b);
    let m = magic();
    let n = seen.len() as int;
    assert(seen.subrange(n - k, n).len() == k);
    assert forall|j: int| 0 <= j < k implies seen[n - k + j] == m[j] by {
        assert(seen.subrange(n - k, n)[j] == m.take(k)[j]);
    }
    // A run that ends in `b` is one that ended before `b`, with one byte more.
    assert forall|j: int| 1 <= j <= MAGIC_LEN && ends_with_magic_start(next, j) implies b == m[j
        - 1] && ends_with_magic_start(seen, j - 1) by {
        let run = next.subrange(n + 1 - j, n + 1);
        assert(run[j - 1] == m.take(j)[j - 1]);
        assert(seen.subrange(n - (j - 1), n) =~= run.subrange(0, j - 1));
        assert(m.take(j).subrange(0, j - 1) =~= m.take(j - 1));
    }
    // The magic's first byte occurs nowhere else in it, so a shorter run than the longest one is
    // no run at all.
    assert forall|j: int| 1 <= j < k implies !ends_with_magic_start(seen, j) by {
        if ends_with_magic_start(seen, j) {
            assert(seen.subrange(n - j, n)[0] == m.take(j)[0]);
            assert(seen[n - k + (k - j)] == m[k - j]);
        }
    }
    assert forall|e: int| e <= n implies !magic_ends_at(next, e) by {
        if magic_ends_at(next, e) {
            assert(seen.subrange(e - MAGIC_LEN, e) =~= next.subrange(e - MAGIC_LEN, e));
            assert(magic_ends_at(seen, e));
        }
    }
    if magic_ends_at(next, n + 1) {
        assert(m.take(8) =~= m);
        assert(ends_with_magic_start(next, 8));
        assert(ends_with_magic_start(seen, 7));
    }
    if b == m[k] {
        assert(next.subrange(n + 1 - (k + 1), n + 1) =~= m.take(k + 1));
        if k + 1 == MAGIC_LEN {
            assert(m.take(8) =~= m);
        }
    } else if b == m[0] {
        assert(next.subrange(n, n + 1) =~= m.take(1));
    } else {
        assert(next.subrange(n + 1, n + 1) =~= m.take(0));
    }
}

/// How many bytes of the magic the stream ends with after one more byte, when it ended with
/// `matched` of them.
pub open spec fn sync_step(matched: int, b: u8) -> int {
    if b == magic()[matched] {
        matched + 1
    } else if b == magic()[0] {
        1
    } else {
        0
    }
}

/// Counting byte by byte finds the first magic and no other.
pub proof fn sync_step_tracks(seen: Seq<u8>, matched: int, b: u8)
    requires
        magic_progress(seen, matched),
        no_magic(seen),
    ensures
        if sync_step(matched, b) == MAGIC_LEN {
            first_magic_end(seen.push(b), seen.len() as int + 1)
        } else {
            no_magic(seen.push(b)) && magic_progress(seen.push(b), sync_step(matched, b))
        },
{
    progress_step(seen, matched, b);
}

/// Only one number is the largest.
pub proof fn magic_progress_unique(s: Seq<u8>, a: int, b: int)
    requires
        magic_progress(s, a),
        magic_progress(s, b),
    ensures
        a == b,
{
}

/// The start of a magic that is not complete.
pub proof fn magic_start_progress(matched: int)
    requires
        0 <= matched < MAGIC_LEN,
    ensures
        no_magic(magic().take(matched)),
        magic_progress(magic().take(matched), matched),
{
    let start = magic().take(matched);
    assert(start.subrange(0, matched) =~= start);
}

/// Searches the next piece of a stream for the magic and discards everything before it. Returns how
/// many bytes of the piece belong to the search: the stream goes on behind them. `None` when the
/// magic is not complete yet.
///
/// What earlier pieces ended with counts as if it stood before this one.
pub fn drain_to_magic(scanner: &mut SyncScanner, piece: &[u8]) -> (end: Option<usize>)
    requires
        old(scanner).wf(),
    ensures
        final(scanner).wf(),
        ({
            let before = old(scanner).matched();
            let seen = magic().take(before) + piece@;
            match end {
                Some(n) => {
                    &&& n <= piece@.len()
                    &&& first_magic_end(seen, before + n)
                    &&& final(scanner).matched() == MAGIC_LEN
                },
                None => no_magic(seen) && magic_progress(seen, final(scanner).matched()),
            }
        }),
{
    let ghost before = scanner.matched as int;
    let ghost m = magic();
    proof {
        let start = m.take(before);
        if before == MAGIC_LEN {
            assert(m.take(8) =~= m);
            assert((m + piece@).subrange(0, 8) =~= m);
        } else {
            magic_start_progress(before);
        }
        assert(start + piece@.take(0) =~= start);
    }
    if scanner.matched == MAGIC_LEN {
        return Some(0);
    }
    let mut i: usize = 0;
    while i < piece.len()
        invariant
            i <= piece@.len(),
            before == old(scanner).matched(),
            0 <= before < MAGIC_LEN,
            scanner.matched < MAGIC_LEN,
            m == magic(),
            no_magic(m.take(before) + piece@.take(i as int)),
            magic_progress(m.take(before) + piece@.take(i as int), scanner.matched as int),
        decreases piece@.len() - i,
    {
        let b = piece[i];
        let ghost seen = m.take(before) + piece@.take(i as int);
        let ghost next = m.take(before) + piece@.take(i + 1);
        proof {
            assert(piece@.take(i + 1) =~= piece@.take(i as int).push(b));
            assert(next =~= seen.push(b));
            progress_step(seen, scanner.matched as int, b);
        }
        if b == magic_byte(scanner.matched) {
            scanner.matched += 1;
            if scanner.matched == MAGIC_LEN {
                proof {
                    let all = m.take(before) + piece@;
                    let end = before + i + 1;
                    assert forall|e: int| e <= end implies magic_ends_at(all, e)
                        == #[trigger] magic_ends_at(next, e) by {
                        if MAGIC_LEN <= e {
                            assert(all.subrange(e - MAGIC_LEN, e) =~= next.subrange(
                                e - MAGIC_LEN,
                                e,
                            ));
                        }
                    }
                    assert(magic_ends_at(next, end));
                    assert forall|d: int| d < end implies !magic_ends_at(all, d) by {
                        assert(!magic_ends_at(next, d));
                    }
                }
                return Some(i + 1);
            }
        } else if b == magic_byte(0) {
            scanner.matched = 1;
        } else {
            scanner.matched = 0;
        }
        i += 1;
    }
    assert(piece@.take(i as int) =~= piece@);
    None
}

/// A window that covers the magic's first byte anywhere but at its own start is no magic.
proof fn no_magic_across(s: Seq<u8>, n: int, e: int)
    requires
        0 <= n < e < n + MAGIC_LEN,
        e <= s.len(),
        s[n] == 0x46,
    ensures
        !magic_ends_at(s, e),
{
    if magic_ends_at(s, e) {
        assert(s.subrange(e - MAGIC_LEN, e)[n - (e - MAGIC_LEN)] == magic()[n - (e - MAGIC_LEN)]);
    }
}

/// Whatever stale bytes precede the preamble, the search stops right behind its magic, and what
/// follows the filler is what the host wrote after the preamble.
pub proof fn sync_skips_stale(stale: Seq<u8>, rest: Seq<u8>)
    requires
        no_magic(stale),
    ensures
        first_magic_end(stale + preamble() + rest, stale.len() + MAGIC_LEN),
        (stale + preamble() + rest).skip(stale.len() + MAGIC_LEN + PREAMBLE_FILLER_LEN) == rest,
{
    let p = preamble();
    let s = stale + p + rest;
    let n = stale.len() as int;
    assert(p.len() == 511 && p[0] == 0x46);
    assert(s[n] == p[0]);
    assert(p.subrange(0, 8) =~= magic());
    assert(s.subrange(n, n + 8) =~= p.subrange(0, 8));
    assert forall|e: int| e < n + MAGIC_LEN implies !magic_ends_at(s, e) by {
        if MAGIC_LEN <= e <= n {
            assert(stale.subrange(e - 8, e) =~= s.subrange(e - 8, e));
            assert(!magic_ends_at(stale, e));
        } else if n < e && MAGIC_LEN <= e {
            no_magic_across(s, n, e);
        }
    }
    assert(s.skip(n + 8 + 503) =~= rest);
}

// --- frames -----------------------------------------------------------------------------------

/// Number of bytes in a frame's length prefix.
pub const HEADER_LEN: usize = 4;

/// A frame: the body's length as a big-endian `u32`, then the body. The length wraps at 2^32.
pub open spec fn frame_bytes(body: Seq<u8>) -> Seq<u8> {
    crate::bytes::be_u32((body.len() % 0x1_0000_0000) as u32) + body
}

/// What is to be done with the bytes that have arrived of a frame.
#[derive(Debug)]
pub enum FrameStep {
    /// So many more bytes are to be read.
    Need(usize),
    /// The frame is there, with this body.
    Body(Vec<u8>),
}

/// The body length that the prefix at the start of `s` announces.
pub open spec fn announced(s: Seq<u8>) -> int {
    crate::bytes::be_u32_at(s, 0) as int
}

/// Reads one frame from the start of `received`. As long as the frame is not complete, says how
/// many bytes are missing from the prefix, or else from the body.
pub fn read_frame(received: &[u8]) -> (step: FrameStep)
    ensures
        match step {
            FrameStep::Need(n) => if received@.len() < HEADER_LEN {
                n == HEADER_LEN - received@.len()
            } else {
                received@.len() < HEADER_LEN + announced(received@) && n == HEADER_LEN + announced(
                    received@,
                ) - received@.len()
            },
            FrameStep::Body(body) => {
                &&& received@.len() >= HEADER_LEN + announced(received@)
                &&& body@ == received@.subrange(
                    HEADER_LEN as int,
                    HEADER_LEN + announced(received@),
                )
            },
        },
{
    if received.len() < HEADER_LEN {
        return FrameStep::Need(HEADER_LEN - received.len());
    }
    let n: usize = (received[0] as u32 * 0x100_0000 + received[1] as u32 * 0x1_0000
        + received[2] as u32 * 0x100 + received[3] as u32) as usize;
    proof {
        reveal(crate::bytes::be_u32_at);
        assert(n == announced(received@));
    }
    let have: usize = received.len() - HEADER_LEN;
    if have < n {
        FrameStep::Need(n - have)
    } else {
        FrameStep::Body(copy_range(received, HEADER_LEN, HEADER_LEN + n))
    }
}

/// The frame that carries `body`.
pub fn write_frame(body: &[u8]) -> (frame: Vec<u8>)
    ensures
        frame@ == frame_bytes(body@),
{
    let n: u32 = (body.len() as u64 % 0x1_0000_0000) as u32;
    let mut frame: Vec<u8> = Vec::new();
    frame.push((n / 0x100_0000 % 0x100) as u8);
    frame.push((n / 0x1_0000 % 0x100) as u8);
    frame.push((n / 0x100 % 0x100) as u8);
    frame.push((n % 0x100) as u8);
    proof {
        reveal(crate::bytes::be_u32);
        assert(frame@ =~= crate::bytes::be_u32(n));
    }
    append_bytes(&mut frame, body);
    frame
}

/// Reading a written frame gives its body back, whatever follows the frame.
pub proof fn frame_round_trip(body: Seq<u8>, rest: Seq<u8>)
    requires
        body.len() <= u32::MAX,
    ensures
        ({
            let s = frame_bytes(body) + rest;
            &&& announced(s) == body.len()
            &&& s.subrange(HEADER_LEN as int, HEADER_LEN + announced(s)) == body
            &&& s.skip(HEADER_LEN + body.len()) == rest
        }),
{
    let s = frame_bytes(body) + rest;
    let n = body.len() as u32;
    assert(s.subrange(0, 4) =~= crate::bytes::be_u32(n));
    crate::bytes::be_u32_round_trip(s, 0, n);
    assert(s.subrange(4, 4 + body.len() as int) =~= body);
    assert(s.skip((4 + body.len()) as int) =~= rest);
}

/// A reader that asks for the missing bytes never asks for a byte of the next frame: as long as a
/// frame is incomplete, the demand is positive and no larger than what the frame still lacks.
pub proof fn frame_demand_stays_inside(body: Seq<u8>, have: int)
    requires
        body.len() <= u32::MAX,
        HEADER_LEN <= have < HEADER_LEN + body.len(),
    ensures
        ({
            let part = frame_bytes(body).take(have);
            &&& have < HEADER_LEN + announced(part)
            &&& HEADER_LEN + announced(part) - have == frame_bytes(body).len() - have
        }),
{
    let part = frame_bytes(body).take(have);
    let n = body.len() as u32;
    assert(part.subrange(0, 4) =~= crate::bytes::be_u32(n));
    crate::bytes::be_u32_round_trip(part, 0, n);
}

/// A frame starts with the length of its body in four bytes, the most significant first, and what a
/// reader takes for the length is these four bytes.
pub proof fn frame_starts_with_length(body: Seq<u8>, s: Seq<u8>)
    requires
        body.len() <= u32::MAX,
        s.len() >= 4,
    ensures
        ({
            let f = frame_bytes(body);
            &&& f.len() == body.len() + 4
            &&& f[0] * 0x100_0000 + f[1] * 0x1_0000 + f[2] * 0x100 + f[3] == body.len()
            &&& f.skip(4) == body
        }),
        announced(s) == s[0] * 0x100_0000 + s[1] * 0x1_0000 + s[2] * 0x100 + s[3],
{
    reveal(crate::bytes::be_u32);
    reveal(crate::bytes::be_u32_at);
    let f = frame_bytes(body);
    let n = body.len() as u32;
    assert(f.skip(4) =~= body);
    assert(f[0] == (n / 0x100_0000 % 0x100) as u8);
    assert(f[1] == (n / 0x1_0000 % 0x100) as u8);
    assert(f[2] == (n / 0x100 % 0x100) as u8);
    assert(f[3] == (n % 0x100) as u8);
}

/// A preamble is 511 bytes, one less than a packet: the letters `FERRITE`, a zero, and filler.
pub proof fn preamble_spells_name(i: int)
    requires
        8 <= i < 511,
    ensures
        preamble().len() == 511,
        preamble().take(8) == seq![70u8, 69, 82, 82, 73, 84, 69, 0],
        preamble()[i] == 0xA5,
{
    assert(preamble().take(8) =~= seq![70u8, 69, 82, 82, 73, 84, 69, 0]);
}

} // verus!
