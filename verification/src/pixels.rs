//! Captured pixels: from four-byte pixels in padded rows to tightly packed R, G, B bytes.

use vstd::arithmetic::div_mod::{lemma_div_is_ordered, lemma_fundamental_div_mod, lemma_fundamental_div_mod_converse};
use vstd::arithmetic::mul::{lemma_mul_inequality, lemma_mul_is_distributive_add_other_way};
use vstd::prelude::*;

use crate::message::PixelFormat;

verus! {

/// One captured frame in an encoded format.
#[derive(Debug)]
pub struct Frame {
    pub format: PixelFormat,
    pub width: u32,
    pub height: u32,
    pub data: Vec<u8>,
}

/// One captured frame as tightly packed R, G, B bytes.
#[derive(Debug)]
pub struct RgbFrame {
    pub width: u32,
    pub height: u32,
    pub rgb: Vec<u8>,
}

/// The pixel layout that the capture source negotiated.
#[derive(Debug, Clone, Copy, PartialEq, Eq, Structural)]
pub enum VideoFormat {
    Bgrx,
    Bgra,
    Rgbx,
    Rgba,
    /// Any layout that cannot be converted.
    Other,
}

impl VideoFormat {
    /// The layout can be converted.
    pub open spec fn supported(self) -> bool {
        self != VideoFormat::Other
    }

    /// Blue comes first.
    pub open spec fn blue_first(self) -> bool {
        self == VideoFormat::Bgrx || self == VideoFormat::Bgra
    }
}

/// Row `y` of an image with `w` pixels a row lies within the first `len` bytes.
pub open spec fn row_fits(len: int, w: int, stride: int, y: int) -> bool {
    y * stride + w * 4 <= len
}

/// Byte `i` of the packed image: the row is `i / (w * 3)`, the pixel in it `i % (w * 3) / 3`, and
/// the channel, red before green before blue, `i % (w * 3) % 3`.
pub open spec fn rgb_byte(src: Seq<u8>, w: int, stride: int, blue_first: bool, i: int) -> u8 {
    let y = i / (w * 3);
    let x = i % (w * 3) / 3;
    let c = i % (w * 3) % 3;
    src[y * stride + x * 4 + (if blue_first {
        2 - c
    } else {
        c
    })]
}

/// `dst` after the rows of an image with `w` by `h` pixels that lie within `src` were packed into
/// it. Everything else keeps its value.
pub open spec fn packed(
    src: Seq<u8>,
    w: int,
    h: int,
    stride: int,
    blue_first: bool,
    dst: Seq<u8>,
) -> Seq<u8> {
    Seq::new(
        dst.len(),
        |i: int|
            if i < w * h * 3 && row_fits(src.len() as int, w, stride, i / (w * 3)) {
                rgb_byte(src, w, stride, blue_first, i)
            } else {
                dst[i]
            },
    )
}

/// A row and a place in it are found back in the index that they make.
proof fn row_and_rest(w: int, y: int, r: int)
    requires
        0 <= y,
        0 <= r < w * 3,
    ensures
        (y * (w * 3) + r) / (w * 3) == y,
        (y * (w * 3) + r) % (w * 3) == r,
{
    lemma_fundamental_div_mod_converse(y * (w * 3) + r, w * 3, y, r);
}

/// Packs one row: `w` pixels from index `from` of `src` to index `at` of `dst`.
fn pack_row(src: &[u8], from: usize, w: usize, blue_first: bool, dst: &mut [u8], at: usize)
    requires
        from + w * 4 <= src@.len(),
        at + w * 3 <= old(dst)@.len(),
    ensures
        final(dst)@.len() == old(dst)@.len(),
        forall|r: int|
            0 <= r < w * 3 ==> #[trigger] final(dst)@[at + r] == src@[from + r / 3 * 4 + (
            if blue_first {
                2 - r % 3
            } else {
                r % 3
            })],
        forall|i: int|
            0 <= i < old(dst)@.len() && !(at <= i < at + w * 3) ==> #[trigger] final(dst)@[i]
                == old(dst)@[i],
{
    let src_len: usize = src.len();
    let dst_len: usize = dst.len();
    let mut x: usize = 0;
    while x < w
        invariant
            x <= w,
            from + w * 4 <= src_len == src@.len(),
            at + w * 3 <= dst_len == dst@.len(),
            dst@.len() == old(dst)@.len(),
            forall|r: int|
                0 <= r < x * 3 ==> #[trigger] dst@[at + r] == src@[from + r / 3 * 4 + (
                if blue_first {
                    2 - r % 3
                } else {
                    r % 3
                })],
            forall|i: int|
                0 <= i < dst@.len() && !(at <= i < at + x * 3) ==> #[trigger] dst@[i]
                    == old(dst)@[i],
        decreases w - x,
    {
        let p: usize = from + x * 4;
        let d: usize = at + x * 3;
        if blue_first {
            dst[d] = src[p + 2];
            dst[d + 1] = src[p + 1];
            dst[d + 2] = src[p];
        } else {
            dst[d] = src[p];
            dst[d + 1] = src[p + 1];
            dst[d + 2] = src[p + 2];
        }
        x += 1;
    }
}

/// The bytes of a packed row are the bytes of the packed image.
proof fn row_is_packed(
    src: Seq<u8>,
    w: int,
    h: int,
    stride: int,
    blue_first: bool,
    old_dst: Seq<u8>,
    before: Seq<u8>,
    after: Seq<u8>,
    y: int,
)
    requires
        0 <= y < h,
        0 <= w,
        0 <= stride,
        (y + 1) * (w * 3) <= old_dst.len(),
        before.len() == old_dst.len(),
        after.len() == old_dst.len(),
        row_fits(src.len() as int, w, stride, y),
        forall|i: int|
            0 <= i < y * (w * 3) ==> #[trigger] before[i] == packed(
                src,
                w,
                h,
                stride,
                blue_first,
                old_dst,
            )[i],
        forall|i: int| y * (w * 3) <= i < before.len() ==> #[trigger] before[i] == old_dst[i],
        forall|r: int|
            0 <= r < w * 3 ==> #[trigger] after[y * (w * 3) + r] == src[y * stride + r / 3 * 4 + (
            if blue_first {
                2 - r % 3
            } else {
                r % 3
            })],
        forall|i: int|
            0 <= i < before.len() && !(y * (w * 3) <= i < y * (w * 3) + w * 3)
                ==> #[trigger] after[i] == before[i],
    ensures
        (y + 1) * (w * 3) == y * (w * 3) + w * 3,
        forall|i: int|
            0 <= i < (y + 1) * (w * 3) ==> #[trigger] after[i] == packed(
                src,
                w,
                h,
                stride,
                blue_first,
                old_dst,
            )[i],
        forall|i: int| (y + 1) * (w * 3) <= i < after.len() ==> #[trigger] after[i] == old_dst[i],
{
    let all = packed(src, w, h, stride, blue_first, old_dst);
    lemma_mul_is_distributive_add_other_way(w * 3, y, 1);
    packed_size(w, h, y);
    assert forall|i: int| 0 <= i < (y + 1) * (w * 3) implies #[trigger] after[i] == all[i] by {
        if i >= y * (w * 3) {
            let r = i - y * (w * 3);
            row_and_rest(w, y, r);
            assert(after[y * (w * 3) + r] == after[i]);
        } else {
            assert(before[i] == all[i]);
        }
    }
}

/// Every byte of the packed image belongs to one of its rows.
pub proof fn row_of_byte(w: int, h: int, i: int)
    requires
        0 <= i < w * h * 3,
        0 < w,
    ensures
        0 <= i / (w * 3) < h,
{
    let row = w * 3;
    let y = i / row;
    lemma_fundamental_div_mod(i, row);
    assert(y < h) by (nonlinear_arith)
        requires
            0 <= i < w * h * 3,
            row == w * 3,
            i == row * y + i % row,
            0 <= i % row,
            w > 0,
    ;
    vstd::arithmetic::div_mod::lemma_div_pos_is_pos(i, row);
}

/// `y + 1` rows are no more than `h` rows.
proof fn packed_size(w: int, h: int, y: int)
    requires
        0 <= y < h,
        0 <= w,
    ensures
        (y + 1) * (w * 3) <= w * h * 3,
{
    assert((y + 1) * (w * 3) <= w * h * 3) by (nonlinear_arith)
        requires
            0 <= y < h,
            0 <= w,
    ;
}

/// A row behind one that does not fit does not fit either.
proof fn rows_end(len: int, w: int, stride: int, y: int, later: int)
    requires
        !row_fits(len, w, stride, y),
        y <= later,
        0 <= stride,
    ensures
        !row_fits(len, w, stride, later),
{
    lemma_mul_inequality(y, later, stride);
}

/// `dst_len` bytes have room for every row of the image that lies within `src_len` bytes.
pub open spec fn rows_have_room(src_len: int, w: int, h: int, stride: int, dst_len: int) -> bool {
    forall|y: int|
        0 <= y < h && #[trigger] row_fits(src_len, w, stride, y) ==> (y + 1) * (w * 3) <= dst_len
}

/// A packed image has room for all rows.
proof fn image_has_room(src_len: int, w: int, h: int, stride: int, dst_len: int)
    requires
        0 <= w,
        w * h * 3 <= dst_len,
    ensures
        rows_have_room(src_len, w, h, stride, dst_len),
{
    assert forall|y: int|
        0 <= y < h && #[trigger] row_fits(src_len, w, stride, y) implies (y + 1) * (w * 3)
        <= dst_len by {
        packed_size(w, h, y);
    }
}

/// Where channel `c` of a pixel stands among its four bytes, red being channel 0.
pub open spec fn channel_at(fmt: VideoFormat, c: int) -> int {
    match fmt {
        VideoFormat::Rgbx => c,
        VideoFormat::Rgba => c,
        VideoFormat::Bgrx => 2 - c,
        VideoFormat::Bgra => 2 - c,
        VideoFormat::Other => -1,
    }
}

/// `dst` shows the image: every channel of every pixel of a row that lies within the source is the
/// source's.
pub open spec fn shows(
    src: Seq<u8>,
    w: int,
    h: int,
    stride: int,
    fmt: VideoFormat,
    dst: Seq<u8>,
) -> bool {
    forall|x: int, y: int, c: int|
        0 <= x < w && 0 <= y < h && 0 <= c < 3 && y * stride + w * 4 <= src.len()
            ==> #[trigger] pixel(dst, w, x, y, c) == src[y * stride + 4 * x + channel_at(fmt, c)]
}

/// Channel `c` of the pixel in column `x` of row `y` of a packed image.
pub open spec fn pixel(dst: Seq<u8>, w: int, x: int, y: int, c: int) -> u8 {
    dst[(y * w + x) * 3 + c]
}

/// A pixel keeps its colour, whatever the layout of the source: red, green and blue of the pixel in
/// column `x` of row `y` come from the four bytes of that pixel, red first where the layout has red
/// first, and the other way round where it has blue first.
pub proof fn pixel_keeps_colour(
    src: Seq<u8>,
    w: int,
    h: int,
    stride: int,
    fmt: VideoFormat,
    dst: Seq<u8>,
    x: int,
    y: int,
)
    requires
        0 <= x < w,
        0 <= y < h,
        y * stride + w * 4 <= src.len(),
        (y + 1) * (w * 3) <= dst.len(),
        fmt != VideoFormat::Other,
    ensures
        ({
            let out = packed(src, w, h, stride, fmt.blue_first(), dst);
            let at = (y * w + x) * 3;
            let p = y * stride + 4 * x;
            &&& fmt == VideoFormat::Rgbx || fmt == VideoFormat::Rgba ==> out[at] == src[p] && out[at
                + 1] == src[p + 1] && out[at + 2] == src[p + 2]
            &&& fmt == VideoFormat::Bgrx || fmt == VideoFormat::Bgra ==> out[at] == src[p + 2]
                && out[at + 1] == src[p + 1] && out[at + 2] == src[p]
        }),
{
    let at = (y * w + x) * 3;
    packed_size(w, h, y);
    assert(at == y * (w * 3) + 3 * x && 0 <= y * (w * 3) && (y + 1) * (w * 3) == y * (w * 3) + w * 3)
        by (nonlinear_arith)
        requires
            at == (y * w + x) * 3,
            0 <= y,
            0 <= w,
    ;
    row_and_rest(w, y, 3 * x);
    row_and_rest(w, y, 3 * x + 1);
    row_and_rest(w, y, 3 * x + 2);
}

/// All pixels keep their colours.
proof fn packed_image_shows(src: Seq<u8>, w: int, h: int, stride: int, fmt: VideoFormat, dst: Seq<u8>)
    requires
        fmt != VideoFormat::Other,
        0 <= w,
        0 <= stride,
        rows_have_room(src.len() as int, w, h, stride, dst.len() as int),
    ensures
        shows(src, w, h, stride, fmt, packed(src, w, h, stride, fmt.blue_first(), dst)),
{
    let out = packed(src, w, h, stride, fmt.blue_first(), dst);
    assert forall|x: int, y: int, c: int|
        0 <= x < w && 0 <= y < h && 0 <= c < 3 && y * stride + w * 4
            <= src.len() implies #[trigger] pixel(out, w, x, y, c) == src[y * stride + 4 * x
        + channel_at(fmt, c)] by {
        assert(row_fits(src.len() as int, w, stride, y));
        pixel_keeps_colour(src, w, h, stride, fmt, dst, x, y);
    }
}

/// Packs `src`, whose rows may be padded to `stride` bytes, into tightly packed R, G, B bytes.
/// Returns false for an unsupported layout, and when a row does not lie within `src`: the rows
/// before it are packed then, and the rest of `dst` is untouched.
pub fn convert_to_rgb(
    src: &[u8],
    w: usize,
    h: usize,
    stride: usize,
    fmt: VideoFormat,
    dst: &mut [u8],
) -> (done: bool)
    requires
        fmt.supported() ==> rows_have_room(
            src@.len() as int,
            w as int,
            h as int,
            stride as int,
            old(dst)@.len() as int,
        ),
    ensures
        done == (fmt.supported() && (h == 0 || row_fits(
            src@.len() as int,
            w as int,
            stride as int,
            h - 1,
        ))),
        final(dst)@ == (if fmt.supported() {
            packed(src@, w as int, h as int, stride as int, fmt.blue_first(), old(dst)@)
        } else {
            old(dst)@
        }),
        done <==> fmt != VideoFormat::Other && forall|y: int|
            0 <= y < h ==> #[trigger] (y * stride) + w * 4 <= src@.len(),
        fmt != VideoFormat::Other ==> shows(
            src@,
            w as int,
            h as int,
            stride as int,
            fmt,
            final(dst)@,
        ),
        fmt == VideoFormat::Other ==> !done && final(dst)@ == old(dst)@,
        final(dst)@.len() == old(dst)@.len(),
        forall|i: int| w * h * 3 <= i < old(dst)@.len() ==> #[trigger] final(dst)@[i] == old(dst)@[i],
{
    let blue_first = match fmt {
        VideoFormat::Bgrx | VideoFormat::Bgra => true,
        VideoFormat::Rgbx | VideoFormat::Rgba => false,
        VideoFormat::Other => return false,
    };
    let ghost all = packed(src@, w as int, h as int, stride as int, blue_first, old(dst)@);
    let dst_len: usize = dst.len();
    let mut y: usize = 0;
    while y < h
        invariant
            y <= h,
            rows_have_room(
                src@.len() as int,
                w as int,
                h as int,
                stride as int,
                old(dst)@.len() as int,
            ),
            dst@.len() == old(dst)@.len(),
            dst_len == dst@.len(),
            all == packed(src@, w as int, h as int, stride as int, blue_first, old(dst)@),
            fmt.supported(),
            blue_first == fmt.blue_first(),
            y > 0 ==> row_fits(src@.len() as int, w as int, stride as int, y - 1),
            forall|i: int| 0 <= i < y * (w * 3) ==> #[trigger] dst@[i] == all[i],
            forall|i: int| y * (w * 3) <= i < dst@.len() ==> #[trigger] dst@[i] == old(dst)@[i],
        decreases h - y,
    {
        proof {
            assert((y + 1) * (w * 3) == y * (w * 3) + w * 3) by (nonlinear_arith);
        }
        // A row whose end is beyond the address space lies in no slice.
        let from: Option<usize> = row_start(src.len(), w, stride, y);
        match from {
            Some(from) => {
                let ghost before = dst@;
                assert(0 <= w * 3 && 0 <= y * (w * 3)) by (nonlinear_arith);
                let at: usize = y * (w * 3);
                pack_row(src, from, w, blue_first, dst, at);
                proof {
                    row_is_packed(
                        src@,
                        w as int,
                        h as int,
                        stride as int,
                        blue_first,
                        old(dst)@,
                        before,
                        dst@,
                        y as int,
                    );
                }
            },
            None => {
                proof {
                    assert forall|i: int| 0 <= i < dst@.len() implies #[trigger] dst@[i]
                        == all[i] by {
                        if y * (w * 3) <= i < w * h * 3 {
                            let row = w * 3;
                            assert(row > 0) by (nonlinear_arith)
                                requires
                                    0 <= i < w * h * 3,
                                    row == w * 3,
                                    w >= 0,
                                    h >= 0,
                            ;
                            row_and_rest(w as int, y as int, 0);
                            lemma_div_is_ordered(y * (w * 3), i, row);
                            rows_end(
                                src@.len() as int,
                                w as int,
                                stride as int,
                                y as int,
                                i / row,
                            );
                        }
                    }
                    assert(dst@ =~= all);
                    rows_end(src@.len() as int, w as int, stride as int, y as int, h - 1);
                    packed_image_shows(src@, w as int, h as int, stride as int, fmt, old(dst)@);
                    assert(!(y * stride + w * 4 <= src@.len()));
                }
                return false;
            },
        }
        y += 1;
    }
    proof {
        assert(h * (w * 3) == w * h * 3) by (nonlinear_arith);
        assert(dst@ =~= all);
        packed_image_shows(src@, w as int, h as int, stride as int, fmt, old(dst)@);
        assert forall|y: int| 0 <= y < h implies #[trigger] (y * stride) + w * 4 <= src@.len() by {
            if !row_fits(src@.len() as int, w as int, stride as int, y) {
                rows_end(src@.len() as int, w as int, stride as int, y, h - 1);
            }
        }
    }
    true
}

/// Where row `y` starts, if it lies within the first `len` bytes.
fn row_start(len: usize, w: usize, stride: usize, y: usize) -> (from: Option<usize>)
    ensures
        match from {
            Some(f) => f == y * stride && row_fits(len as int, w as int, stride as int, y as int),
            None => !row_fits(len as int, w as int, stride as int, y as int),
        },
{
    proof {
        assert(0 <= y * stride) by (nonlinear_arith);
    }
    let from: usize = match y.checked_mul(stride) {
        Some(from) => from,
        None => return None,
    };
    if from > len || (len - from) / 4 < w {
        None
    } else {
        Some(from)
    }
}

/// Packs blue-first pixels, all of whose rows lie within `src`, into R, G, B bytes.
pub fn bgra_to_rgb(src: &[u8], w: usize, h: usize, stride: usize, dst: &mut [u8])
    requires
        h > 0 ==> row_fits(src@.len() as int, w as int, stride as int, h - 1),
        w * h * 3 <= old(dst)@.len(),
    ensures
        final(dst)@ == packed(src@, w as int, h as int, stride as int, true, old(dst)@),
        shows(src@, w as int, h as int, stride as int, VideoFormat::Bgrx, final(dst)@),
{
    proof {
        image_has_room(
            src@.len() as int,
            w as int,
            h as int,
            stride as int,
            dst@.len() as int,
        );
    }
    convert_to_rgb(src, w, h, stride, VideoFormat::Bgra, dst);
}

/// What became of a buffer from the capture source.
#[derive(Debug, Clone, Copy, PartialEq, Eq, Structural)]
pub enum Captured {
    /// The buffer has no pixels.
    Empty,
    /// The layout is not supported, or the buffer is too short for the image.
    Unsupported,
    /// The image has been packed.
    Packed,
}

/// `scratch` if it has `size` bytes, otherwise that many zero bytes.
pub open spec fn sized(scratch: Seq<u8>, size: int) -> Seq<u8> {
    if scratch.len() == size {
        scratch
    } else {
        Seq::new(size as nat, |i: int| 0u8)
    }
}

/// Packs a captured buffer of `w` by `h` pixels into `scratch`, which is replaced by a zeroed one
/// when its size does not fit the image.
pub fn capture_rgb(
    src: &[u8],
    w: u32,
    h: u32,
    stride: usize,
    fmt: VideoFormat,
    scratch: &mut Vec<u8>,
) -> (outcome: Captured)
    requires
        w * h * 3 <= usize::MAX,
    ensures
        outcome == (if w == 0 || h == 0 {
            Captured::Empty
        } else if fmt.supported() && row_fits(src@.len() as int, w as int, stride as int, h - 1) {
            Captured::Packed
        } else {
            Captured::Unsupported
        }),
        final(scratch)@ == (if outcome == Captured::Empty {
            old(scratch)@
        } else if fmt.supported() {
            packed(
                src@,
                w as int,
                h as int,
                stride as int,
                fmt.blue_first(),
                sized(old(scratch)@, w * h * 3),
            )
        } else {
            sized(old(scratch)@, w * h * 3)
        }),
        outcome == Captured::Packed ==> forall|i: int|
            0 <= i < w * h * 3 ==> #[trigger] final(scratch)@[i] == rgb_byte(
                src@,
                w as int,
                stride as int,
                fmt.blue_first(),
                i,
            ),
        outcome == Captured::Packed <==> 0 < w && 0 < h && fmt != VideoFormat::Other && (h - 1)
            * stride + w * 4 <= src@.len(),
        outcome == Captured::Empty <==> w == 0 || h == 0,
        outcome == Captured::Packed ==> {
            &&& final(scratch)@.len() == w * h * 3
            &&& shows(src@, w as int, h as int, stride as int, fmt, final(scratch)@)
        },
{
    if w == 0 || h == 0 {
        return Captured::Empty;
    }
    proof {
        assert(w * h <= w * h * 3 && 0 <= w * h) by (nonlinear_arith);
    }
    let size: usize = w as usize * h as usize * 3;
    if scratch.len() != size {
        *scratch = vec![0u8; size];
    }
    assert(scratch@ =~= sized(old(scratch)@, w * h * 3));
    proof {
        image_has_room(src@.len() as int, w as int, h as int, stride as int, size as int);
    }
    if !convert_to_rgb(src, w as usize, h as usize, stride, fmt, scratch.as_mut_slice()) {
        return Captured::Unsupported;
    }
    proof {
        assert forall|i: int| 0 <= i < w * h * 3 implies #[trigger] scratch@[i] == rgb_byte(
            src@,
            w as int,
            stride as int,
            fmt.blue_first(),
            i,
        ) by {
            let y = i / (w * 3);
            row_of_byte(w as int, h as int, i);
            if !row_fits(src@.len() as int, w as int, stride as int, y) {
                rows_end(src@.len() as int, w as int, stride as int, y, h - 1);
            }
        }
    }
    Captured::Packed
}

/// The frame that holds the first `written` bytes of a JPEG buffer.
pub fn jpeg_frame(width: u32, height: u32, buffer: &[u8], written: usize) -> (frame: Frame)
    requires
        written <= buffer@.len(),
    ensures
        frame.format == PixelFormat::Jpeg,
        frame.width == width,
        frame.height == height,
        frame.data@ == buffer@.take(written as int),
{
    let data = crate::bytes::copy_range(buffer, 0, written);
    assert(data@ =~= buffer@.take(written as int));
    Frame { format: PixelFormat::Jpeg, width, height, data }
}

} // verus!
