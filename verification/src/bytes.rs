//! Fixed-width integers as byte sequences.

use vstd::prelude::*;

verus! {

/// The four bytes of `x`, least significant first.
#[verifier::opaque]
pub open spec fn le_u32(x: u32) -> Seq<u8> {
    seq![
        (x % 0x100) as u8,
        (x / 0x100 % 0x100) as u8,
        (x / 0x1_0000 % 0x100) as u8,
        (x / 0x100_0000 % 0x100) as u8,
    ]
}

/// The eight bytes of `x`, least significant first.
#[verifier::opaque]
pub open spec fn le_u64(x: u64) -> Seq<u8> {
    le_u32((x % 0x1_0000_0000) as u32) + le_u32((x / 0x1_0000_0000) as u32)
}

/// The four bytes of `x`, most significant first.
#[verifier::opaque]
pub open spec fn be_u32(x: u32) -> Seq<u8> {
    seq![
        (x / 0x100_0000 % 0x100) as u8,
        (x / 0x1_0000 % 0x100) as u8,
        (x / 0x100 % 0x100) as u8,
        (x % 0x100) as u8,
    ]
}

/// The little-endian `u32` that starts at index `at` of `s`.
#[verifier::opaque]
pub open spec fn le_u32_at(s: Seq<u8>, at: int) -> u32 {
    (s[at] + s[at + 1] * 0x100 + s[at + 2] * 0x1_0000 + s[at + 3] * 0x100_0000) as u32
}

/// The little-endian `u64` that starts at index `at` of `s`.
#[verifier::opaque]
pub open spec fn le_u64_at(s: Seq<u8>, at: int) -> u64 {
    (le_u32_at(s, at) + le_u32_at(s, at + 4) * 0x1_0000_0000) as u64
}

/// The big-endian `u32` that starts at index `at` of `s`.
#[verifier::opaque]
pub open spec fn be_u32_at(s: Seq<u8>, at: int) -> u32 {
    (s[at] * 0x100_0000 + s[at + 1] * 0x1_0000 + s[at + 2] * 0x100 + s[at + 3]) as u32
}

/// A `u32` takes four bytes.
pub broadcast proof fn le_u32_len(x: u32)
    ensures
        #[trigger] le_u32(x).len() == 4,
{
    reveal(le_u32);
}

/// A `u64` takes eight bytes.
pub broadcast proof fn le_u64_len(x: u64)
    ensures
        #[trigger] le_u64(x).len() == 8,
{
    reveal(le_u64);
    reveal(le_u32);
}

/// A `u32` takes four bytes.
pub broadcast proof fn be_u32_len(x: u32)
    ensures
        #[trigger] be_u32(x).len() == 4,
{
    reveal(be_u32);
}

/// Four bytes that hold `x` least significant first are read back as `x`.
pub proof fn le_u32_round_trip(s: Seq<u8>, at: int, x: u32)
    requires
        0 <= at,
        at + 4 <= s.len(),
        s.subrange(at, at + 4) == le_u32(x),
    ensures
        le_u32_at(s, at) == x,
{
    reveal(le_u32);
    reveal(le_u32_at);
    let t = s.subrange(at, at + 4);
    assert(s[at] == t[0] && s[at + 1] == t[1] && s[at + 2] == t[2] && s[at + 3] == t[3]);
}

/// Eight bytes that hold `x` least significant first are read back as `x`.
pub proof fn le_u64_round_trip(s: Seq<u8>, at: int, x: u64)
    requires
        0 <= at,
        at + 8 <= s.len(),
        s.subrange(at, at + 8) == le_u64(x),
    ensures
        le_u64_at(s, at) == x,
{
    broadcast use le_u32_len;

    reveal(le_u64);
    reveal(le_u64_at);
    let t = s.subrange(at, at + 8);
    let lo = (x % 0x1_0000_0000) as u32;
    let hi = (x / 0x1_0000_0000) as u32;
    assert(s.subrange(at, at + 4) =~= t.subrange(0, 4));
    assert(t.subrange(0, 4) =~= le_u32(lo));
    assert(s.subrange(at + 4, at + 8) =~= t.subrange(4, 8));
    assert(t.subrange(4, 8) =~= le_u32(hi));
    le_u32_round_trip(s, at, lo);
    le_u32_round_trip(s, at + 4, hi);
}

/// Four bytes that hold `x` most significant first are read back as `x`.
pub proof fn be_u32_round_trip(s: Seq<u8>, at: int, x: u32)
    requires
        0 <= at,
        at + 4 <= s.len(),
        s.subrange(at, at + 4) == be_u32(x),
    ensures
        be_u32_at(s, at) == x,
{
    reveal(be_u32);
    reveal(be_u32_at);
    let t = s.subrange(at, at + 4);
    assert(s[at] == t[0] && s[at + 1] == t[1] && s[at + 2] == t[2] && s[at + 3] == t[3]);
}

/// Appends a copy of `data` to `out`.
pub fn append_bytes(out: &mut Vec<u8>, data: &[u8])
    ensures
        final(out)@ == old(out)@ + data@,
{
    out.extend_from_slice(data);
    assert(out@ =~= old(out)@ + data@);
}

/// A copy of `data[from..to]`.
pub fn copy_range(data: &[u8], from: usize, to: usize) -> (part: Vec<u8>)
    requires
        from <= to <= data@.len(),
    ensures
        part@ == data@.subrange(from as int, to as int),
{
    let mut part: Vec<u8> = Vec::with_capacity(to - from);
    append_bytes(&mut part, vstd::slice::slice_subrange(data, from, to));
    assert(part@ =~= data@.subrange(from as int, to as int));
    part
}

} // verus!
