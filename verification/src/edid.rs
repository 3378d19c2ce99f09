//! The EDID that a virtual monitor announces.

use vstd::prelude::*;

verus! {

/// The first 124 bytes of an EDID for 1920x1080 at 60 Hz, up to the padding of the monitor name.
pub const EDID_BASE: [u8; 124] = [
    0x00, 0xff, 0xff, 0xff, 0xff, 0xff, 0xff, 0x00,
    0x31, 0xd8, 0x00, 0x00, 0x00, 0x00, 0x00, 0x00,
    0x05, 0x16, 0x01, 0x03, 0x6d, 0x32, 0x1c, 0x78,
    0xea, 0x5e, 0xc0, 0xa4, 0x59, 0x4a, 0x98, 0x25,
    0x20, 0x50, 0x54, 0x00, 0x00, 0x00, 0xd1, 0xc0,
    0x01, 0x01, 0x01, 0x01, 0x01, 0x01, 0x01, 0x01,
    0x01, 0x01, 0x01, 0x01, 0x01, 0x01, 0x02, 0x3a,
    0x80, 0x18, 0x71, 0x38, 0x2d, 0x40, 0x58, 0x2c,
    0x45, 0x00, 0xf4, 0x19, 0x11, 0x00, 0x00, 0x1e,
    0x00, 0x00, 0x00, 0xff, 0x00, 0x4c, 0x69, 0x6e,
    0x75, 0x78, 0x20, 0x23, 0x30, 0x0a, 0x20, 0x20,
    0x20, 0x00, 0x00, 0x00, 0xfd, 0x00, 0x3b, 0x3d,
    0x42, 0x42, 0x1e, 0x0a, 0x20, 0x20, 0x20, 0x20,
    0x20, 0x20, 0x00, 0x00, 0x00, 0xfc, 0x00, 0x4c,
    0x69, 0x6e, 0x75, 0x78, 0x20, 0x46, 0x48, 0x44,
    0x0a, 0x20, 0x20, 0x20,
];

/// The sum of the bytes of `s`.
pub open spec fn byte_sum(s: Seq<u8>) -> int
    decreases s.len(),
{
    if s.len() == 0 {
        0
    } else {
        byte_sum(s.drop_last()) + s.last()
    }
}

/// The byte that makes the sum of a block a multiple of 256.
pub open spec fn checksum(block: Seq<u8>) -> u8 {
    ((256 - byte_sum(block) % 256) % 256) as u8
}

/// Everything but the checksum of the fixed EDID.
pub open spec fn fixed_block() -> Seq<u8> {
    EDID_BASE@ + seq![0x20u8, 0x20, 0]
}

/// The fixed EDID, of a monitor of 1920 by 1080 pixels.
pub open spec fn fixed_edid() -> Seq<u8> {
    fixed_block().push(checksum(fixed_block()))
}

/// A 128-byte EDID block. Its last byte is the one that makes the sum of all bytes a multiple
/// of 256.
pub fn edid_1080p() -> (out: [u8; 128])
    ensures
        out@ == fixed_edid(),
        out@.take(124) == EDID_BASE@,
        out@[124] == 0x20,
        out@[125] == 0x20,
        out@[126] == 0,
        byte_sum(out@) % 256 == 0,
{
    let base: [u8; 124] = EDID_BASE;
    let mut out: [u8; 128] = [0u8; 128];
    let mut i: usize = 0;
    while i < 124
        invariant
            i <= 124,
            base == EDID_BASE,
            forall|j: int| 0 <= j < i ==> out@[j] == base@[j],
        decreases 124 - i,
    {
        out[i] = base[i];
        i += 1;
    }
    out[124] = 0x20;
    out[125] = 0x20;
    out[126] = 0;
    let mut sum: u32 = 0;
    let mut k: usize = 0;
    while k < 127
        invariant
            k <= 127,
            sum == byte_sum(out@.take(k as int)),
            sum <= 255 * k,
        decreases 127 - k,
    {
        assert(out@.take(k + 1).drop_last() =~= out@.take(k as int));
        sum += out[k] as u32;
        k += 1;
    }
    let ghost before = out@;
    out[127] = ((256 - sum % 256) % 256) as u8;
    proof {
        assert(out@.drop_last() =~= before.take(127));
        assert(out@.take(124) =~= EDID_BASE@);
        assert(before.take(127) =~= fixed_block());
        assert(out@ =~= fixed_edid());
    }
    out
}

// --- a monitor of the client's size -------------------------------------------------------------

/// Pixels of horizontal blanking.
pub const H_BLANK: u32 = 280;

/// Lines of vertical blanking.
pub const V_BLANK: u32 = 45;

/// Largest number of pixels or lines that a timing can announce.
pub const MAX_ACTIVE: u32 = 4095;

/// Bytes of a monitor name.
pub const NAME_LEN: usize = 13;

/// The pixel clock for 60 frames a second, in units of 10 kHz.
pub open spec fn pixel_clock(width: int, height: int) -> int {
    (width + H_BLANK) * (height + V_BLANK) * 60 / 10000
}

/// A timing can announce the size.
pub open spec fn size_fits(width: int, height: int) -> bool {
    0 < width <= MAX_ACTIVE && 0 < height <= MAX_ACTIVE && pixel_clock(width, height) <= 0xffff
}

/// The detailed timing of a size at 60 Hz: clock, active and blanking pixels, active and blanking
/// lines, sync offsets and widths, and the picture's size in millimetres.
pub open spec fn timing(width: int, height: int) -> Seq<u8> {
    let clock = pixel_clock(width, height);
    seq![
        (clock % 256) as u8,
        (clock / 256) as u8,
        (width % 256) as u8,
        0x18,
        (width / 256 * 16 + 1) as u8,
        (height % 256) as u8,
        0x2d,
        (height / 256 * 16) as u8,
        0x58,
        0x2c,
        0x45,
        0x00,
        0xf4,
        0x19,
        0x11,
        0x00,
        0x00,
        0x1e,
    ]
}

/// A character of a monitor name. What is not printable ASCII is replaced.
pub open spec fn name_byte(c: char) -> u8 {
    if ' ' <= c <= '~' {
        c as u8
    } else {
        0x3f
    }
}

/// The monitor name: its first characters, a line feed if there is room, and spaces.
pub open spec fn name_field(name: Seq<char>) -> Seq<u8> {
    Seq::new(
        NAME_LEN as nat,
        |i: int|
            if i < name.len() {
                name_byte(name[i])
            } else if i == name.len() {
                0x0au8
            } else {
                0x20u8
            },
    )
}

/// A descriptor that says nothing.
pub open spec fn empty_descriptor() -> Seq<u8> {
    seq![0u8, 0, 0, 0x10, 0] + Seq::new(13, |i: int| 0u8)
}

/// Everything but the checksum of the EDID of a client's monitor.
pub open spec fn client_block(width: int, height: int, name: Seq<char>) -> Seq<u8> {
    EDID_BASE@.take(38) + seq![1u8, 1] + EDID_BASE@.subrange(40, 54) + timing(width, height) + (
    seq![0u8, 0, 0, 0xfc, 0] + name_field(name)) + empty_descriptor() + empty_descriptor() + seq![
        0u8,
    ]
}

/// The EDID of a client's monitor.
pub open spec fn client_edid_bytes(width: int, height: int, name: Seq<char>) -> Seq<u8> {
    client_block(width, height, name).push(checksum(client_block(width, height, name)))
}

/// The monitor name field.
fn name_bytes(name: &str) -> (field: Vec<u8>)
    ensures
        field@ == name_field(name@),
{
    let chars = crate::text::chars_of(name);
    let mut field: Vec<u8> = Vec::new();
    let mut i: usize = 0;
    while i < NAME_LEN
        invariant
            i <= NAME_LEN,
            chars@ == name@,
            field@ == name_field(name@).take(i as int),
        decreases NAME_LEN - i,
    {
        let b: u8 = if i < chars.len() {
            let c = chars[i];
            if ' ' <= c && c <= '~' {
                c as u8
            } else {
                0x3f
            }
        } else if i == chars.len() {
            0x0a
        } else {
            0x20
        };
        field.push(b);
        i += 1;
        assert(field@ =~= name_field(name@).take(i as int));
    }
    assert(field@ =~= name_field(name@));
    field
}

/// The sum of bytes, which does not overflow for a block.
fn sum_of(bytes: &[u8]) -> (sum: u32)
    requires
        bytes@.len() <= 128,
    ensures
        sum == byte_sum(bytes@),
{
    let mut sum: u32 = 0;
    let mut k: usize = 0;
    assert(bytes@.take(0) =~= seq![]);
    while k < bytes.len()
        invariant
            k <= bytes@.len() <= 128,
            sum == byte_sum(bytes@.take(k as int)),
            sum <= 255 * k,
        decreases bytes@.len() - k,
    {
        assert(bytes@.take(k + 1).drop_last() =~= bytes@.take(k as int));
        sum += bytes[k] as u32;
        k += 1;
    }
    assert(bytes@.take(k as int) =~= bytes@);
    sum
}

/// The EDID of a monitor of the client's size, under the client's name. None if no timing can
/// announce the size.
pub fn client_edid(width: u32, height: u32, name: &str) -> (edid: Option<Vec<u8>>)
    ensures
        match edid {
            Some(e) => {
                &&& size_fits(width as int, height as int)
                &&& e@ == client_edid_bytes(width as int, height as int, name@)
                &&& e@.len() == 128
            },
            None => !size_fits(width as int, height as int),
        },
{
    if width == 0 || height == 0 || width > MAX_ACTIVE || height > MAX_ACTIVE {
        return None;
    }
    let a: u64 = width as u64 + H_BLANK as u64;
    let b: u64 = height as u64 + V_BLANK as u64;
    assert(a * b <= 20_000_000 && 0 <= a * b) by (nonlinear_arith)
        requires
            0 <= a <= 4375,
            0 <= b <= 4140,
    ;
    let clock: u64 = a * b * 60 / 10000;
    assert(clock == pixel_clock(width as int, height as int));
    if clock > 0xffff {
        return None;
    }
    let base: [u8; 124] = EDID_BASE;
    let mut out: Vec<u8> = Vec::new();
    let mut i: usize = 0;
    while i < 54
        invariant
            i <= 54,
            base == EDID_BASE,
            out@ == (EDID_BASE@.take(38) + seq![1u8, 1] + EDID_BASE@.subrange(40, 54)).take(
                i as int,
            ),
        decreases 54 - i,
    {
        out.push(if i == 38 || i == 39 {
            1
        } else {
            base[i]
        });
        i += 1;
        assert(out@ =~= (EDID_BASE@.take(38) + seq![1u8, 1] + EDID_BASE@.subrange(40, 54)).take(
            i as int,
        ));
    }
    let ghost head = EDID_BASE@.take(38) + seq![1u8, 1] + EDID_BASE@.subrange(40, 54);
    assert(out@ =~= head);
    let t: [u8; 18] = [
        (clock % 256) as u8,
        (clock / 256) as u8,
        (width % 256) as u8,
        0x18,
        (width / 256 * 16 + 1) as u8,
        (height % 256) as u8,
        0x2d,
        (height / 256 * 16) as u8,
        0x58,
        0x2c,
        0x45,
        0x00,
        0xf4,
        0x19,
        0x11,
        0x00,
        0x00,
        0x1e,
    ];
    assert(t@ =~= timing(width as int, height as int));
    crate::bytes::append_bytes(&mut out, t.as_slice());
    let tag: [u8; 5] = [0, 0, 0, 0xfc, 0];
    crate::bytes::append_bytes(&mut out, tag.as_slice());
    let field = name_bytes(name);
    crate::bytes::append_bytes(&mut out, field.as_slice());
    let empty: [u8; 18] = [0, 0, 0, 0x10, 0, 0, 0, 0, 0, 0, 0, 0, 0, 0, 0, 0, 0, 0];
    assert(empty@ =~= empty_descriptor());
    crate::bytes::append_bytes(&mut out, empty.as_slice());
    crate::bytes::append_bytes(&mut out, empty.as_slice());
    out.push(0);
    proof {
        assert(tag@ =~= seq![0u8, 0, 0, 0xfc, 0]);
        assert(out@ =~= client_block(width as int, height as int, name@));
    }
    let sum: u32 = sum_of(out.as_slice());
    out.push(((256 - sum % 256) % 256) as u8);
    Some(out)
}

/// The EDID of the monitor that a client gets: of the client's size where a timing can announce it,
/// and the fixed one otherwise.
pub open spec fn monitor_edid_bytes(width: int, height: int, name: Seq<char>) -> Seq<u8> {
    if size_fits(width, height) {
        client_edid_bytes(width, height, name)
    } else {
        fixed_edid()
    }
}

/// The EDID of the monitor that a client gets. No client is turned away for its size.
pub fn monitor_edid(width: u32, height: u32, name: &str) -> (edid: Vec<u8>)
    ensures
        edid@ == monitor_edid_bytes(width as int, height as int, name@),
{
    match client_edid(width, height, name) {
        Some(edid) => edid,
        None => {
            let fixed = edid_1080p();
            let edid = crate::bytes::copy_range(fixed.as_slice(), 0, 128);
            assert(edid@ =~= fixed@);
            edid
        },
    }
}

/// The number of pixels a line that an EDID announces first.
pub open spec fn announced_width(edid: Seq<u8>) -> int {
    edid[56] + edid[58] / 16 * 256
}

/// The number of lines that an EDID announces first.
pub open spec fn announced_height(edid: Seq<u8>) -> int {
    edid[59] + edid[61] / 16 * 256
}

/// The monitor of a client is announced at exactly the client's size, under the first characters of
/// its name, in a block whose bytes sum up to a multiple of 256.
pub proof fn monitor_has_client_size(width: int, height: int, name: Seq<char>)
    requires
        size_fits(width, height),
    ensures
        ({
            let e = client_edid_bytes(width, height, name);
            &&& e.len() == 128
            &&& byte_sum(e) % 256 == 0
            &&& announced_width(e) == width
            &&& announced_height(e) == height
            &&& e.subrange(72, 77) == seq![0u8, 0, 0, 0xfc, 0]
            &&& e.subrange(77, 90) == name_field(name)
        }),
{
    let block = client_block(width, height, name);
    let e = client_edid_bytes(width, height, name);
    assert(e.drop_last() =~= block);
    let t = timing(width, height);
    assert(e[56] == t[2] && e[58] == t[4] && e[59] == t[5] && e[61] == t[7]);
    assert(e.subrange(72, 77) =~= seq![0u8, 0, 0, 0xfc, 0]);
    assert(e.subrange(77, 90) =~= name_field(name));
}

/// For 1920 by 1080 pixels the timing is that of the fixed EDID.
pub proof fn full_hd_timing()
    ensures
        size_fits(1920, 1080),
        timing(1920, 1080) == EDID_BASE@.subrange(54, 72),
{
    assert(pixel_clock(1920, 1080) == 14850);
    assert(timing(1920, 1080) =~= EDID_BASE@.subrange(54, 72));
}

/// Every client gets a monitor: a whole block whose bytes sum up to a multiple of 256, of the
/// client's size where a timing can announce it, and of 1920 by 1080 pixels otherwise.
pub proof fn every_client_gets_a_monitor(width: int, height: int, name: Seq<char>)
    ensures
        ({
            let e = monitor_edid_bytes(width, height, name);
            &&& e.len() == 128
            &&& byte_sum(e) % 256 == 0
            &&& size_fits(width, height) ==> announced_width(e) == width && announced_height(e)
                == height
            &&& !size_fits(width, height) ==> announced_width(e) == 1920 && announced_height(e)
                == 1080
        }),
{
    if size_fits(width, height) {
        monitor_has_client_size(width, height, name);
    } else {
        let e = fixed_edid();
        assert(e.drop_last() =~= fixed_block());
        assert(e[56] == EDID_BASE@[56] && e[58] == EDID_BASE@[58]);
        assert(e[59] == EDID_BASE@[59] && e[61] == EDID_BASE@[61]);
    }
}

/// The monitor of a client runs at 60 Hz: the announced clock, in units of 10 kHz, is that of 60
/// frames a second of the announced size with its blanking, rounded down. In front of the timing only
/// two unused fields differ from the fixed block, the rest of the timing does not depend on the size,
/// and what follows the name says nothing.
pub proof fn monitor_runs_at_60_hz(width: int, height: int, name: Seq<char>, i: int)
    requires
        size_fits(width, height),
    ensures
        ({
            let e = client_edid_bytes(width, height, name);
            let clock = e[54] + e[55] * 256;
            let h_blank = e[57] + e[58] % 16 * 256;
            let v_blank = e[60] + e[61] % 16 * 256;
            &&& h_blank == 280
            &&& v_blank == 45
            &&& clock * 10000 <= (announced_width(e) + h_blank) * (announced_height(e) + v_blank)
                * 60 < (clock + 1) * 10000
            &&& 0 <= i < 54 && i != 38 && i != 39 ==> e[i] == EDID_BASE@[i]
            &&& 62 <= i < 72 ==> e[i] == EDID_BASE@[i]
            &&& 90 <= i < 126 ==> e[i] == (if i == 93 || i == 111 {
                0x10u8
            } else {
                0u8
            })
            &&& e[126] == 0
        }),
{
    let e = client_edid_bytes(width, height, name);
    let t = timing(width, height);
    let clock = pixel_clock(width, height);
    monitor_has_client_size(width, height, name);
    let total = (width + H_BLANK) * (height + V_BLANK) * 60;
    assert(total >= 0) by (nonlinear_arith)
        requires
            width > 0,
            height > 0,
            total == (width + H_BLANK) * (height + V_BLANK) * 60,
    ;
    assert(clock == total / 10000);
    assert(0 <= clock <= 0xffff);
    assert(e[54] == t[0] && e[55] == t[1] && e[57] == t[3] && e[58] == t[4] && e[60] == t[6]
        && e[61] == t[7]);
    assert(e[54] + e[55] * 256 == clock);
    assert(e[58] % 16 == 1);
    assert(e[61] % 16 == 0);
    assert(client_block(width, height, name).len() == 127);
    assert(client_block(width, height, name)[126] == 0);
    if 62 <= i < 72 {
        full_hd_timing();
        assert(e[i] == t[i - 54]);
        assert(timing(1920, 1080)[i - 54] == EDID_BASE@[i]);
    }
    if 90 <= i < 126 {
        let tail = empty_descriptor() + empty_descriptor();
        assert(e[i] == tail[i - 90]);
    }
    if 0 <= i < 54 && i != 38 && i != 39 {
        let head = EDID_BASE@.take(38) + seq![1u8, 1] + EDID_BASE@.subrange(40, 54);
        assert(e[i] == head[i]);
    }
}

/// A size can be announced exactly if it has pixels, no more than 4095 either way, and a clock that
/// fits sixteen bits.
pub proof fn sizes_that_fit(width: int, height: int)
    ensures
        size_fits(width, height) <==> 1 <= width <= 4095 && 1 <= height <= 4095 && (width + 280) * (
        height + 45) * 60 / 10000 <= 65535,
{
}

/// The name is announced letter by letter, as far as there is room for it, with a question mark for
/// what is no printed ASCII. A shorter name ends in a line feed.
pub proof fn name_is_spelled(name: Seq<char>, i: int)
    requires
        0 <= i < 13,
    ensures
        name_field(name).len() == 13,
        i < name.len() && 0x20 <= name[i] as int <= 0x7e ==> name_field(name)[i] == name[i] as u8,
        i < name.len() && !(0x20 <= name[i] as int <= 0x7e) ==> name_field(name)[i] == 0x3f,
        i == name.len() ==> name_field(name)[i] == 0x0a,
        i > name.len() ==> name_field(name)[i] == 0x20,
{
}

} // verus!
