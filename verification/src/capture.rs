//! What the host asks of the screen capture, and which of its announcements it follows.

use vstd::prelude::*;

use crate::pixels::VideoFormat;

verus! {

/// Quality of the frames that are encoded as JPEG.
pub const JPEG_QUALITY: u8 = 70;

/// A choice with a preference and bounds.
#[derive(Debug, Clone, Copy, PartialEq, Eq)]
pub struct PairRange {
    pub default: (u32, u32),
    pub min: (u32, u32),
    pub max: (u32, u32),
}

/// The formats that the host can take.
#[derive(Debug)]
pub struct CaptureOffer {
    pub preferred: VideoFormat,
    pub formats: Vec<VideoFormat>,
    /// Width and height in pixels.
    pub size: PairRange,
    /// Frames per second, as a fraction.
    pub framerate: PairRange,
}

/// The layouts that the host can take.
pub open spec fn offered_formats() -> Seq<VideoFormat> {
    seq![VideoFormat::Bgrx, VideoFormat::Bgra, VideoFormat::Rgbx, VideoFormat::Rgba]
}

/// What the host offers to the capture source.
pub fn capture_offer() -> (offer: CaptureOffer)
    ensures
        offer.preferred == VideoFormat::Bgrx,
        offer.formats@ == offered_formats(),
        offer.formats@ == seq![
            VideoFormat::Bgrx,
            VideoFormat::Bgra,
            VideoFormat::Rgbx,
            VideoFormat::Rgba,
        ],
        offer.size == (PairRange { default: (1920, 1080), min: (1, 1), max: (7680, 4320) }),
        offer.framerate == (PairRange { default: (30, 1), min: (0, 1), max: (120, 1) }),
{
    CaptureOffer {
        preferred: VideoFormat::Bgrx,
        formats: vec![VideoFormat::Bgrx, VideoFormat::Bgra, VideoFormat::Rgbx, VideoFormat::Rgba],
        size: PairRange { default: (1920, 1080), min: (1, 1), max: (7680, 4320) },
        framerate: PairRange { default: (30, 1), min: (0, 1), max: (120, 1) },
    }
}

/// Whatever layout the source takes from the offer, the host can convert it, and no frame of an
/// offered size is too large for memory to address.
pub proof fn offer_can_be_converted(i: int, width: int, height: int)
    requires
        0 <= i < offered_formats().len(),
        1 <= width <= 7680,
        1 <= height <= 4320,
    ensures
        offered_formats()[i].supported(),
        0 < width * height * 3 <= u32::MAX,
{
    assert(0 < width * height <= 7680 * 4320) by (nonlinear_arith)
        requires
            1 <= width <= 7680,
            1 <= height <= 4320,
    ;
}

/// What kind of media the source announces; none if that could not be read.
#[derive(Debug, Clone, Copy, PartialEq, Eq, Structural)]
pub struct MediaKind {
    pub video: bool,
    pub raw: bool,
}

/// Whether a changed parameter is the format of the frames to come: it is there, it is a format, and
/// the format is one of raw video.
pub fn is_video_format(present: bool, is_format: bool, media: Option<MediaKind>) -> (yes: bool)
    ensures
        yes == (present && is_format && media == Some(MediaKind { video: true, raw: true })),
{
    if !present || !is_format {
        return false;
    }
    match media {
        Some(kind) => kind.video && kind.raw,
        None => false,
    }
}

/// Makes room for an encoded frame. A buffer that is large enough stays as it is.
pub fn ensure_room(scratch: &mut Vec<u8>, needed: usize)
    ensures
        final(scratch)@ == (if old(scratch)@.len() < needed {
            old(scratch)@ + Seq::new((needed - old(scratch)@.len()) as nat, |i: int| 0u8)
        } else {
            old(scratch)@
        }),
{
    let ghost before = scratch@;
    if scratch.len() < needed {
        let start: usize = scratch.len();
        let mut i: usize = start;
        assert(scratch@ =~= before + Seq::new(0, |i: int| 0u8));
        while i < needed
            invariant
                start <= i <= needed,
                start == before.len(),
                scratch@ == before + Seq::new((i - start) as nat, |i: int| 0u8),
            decreases needed - i,
        {
            scratch.push(0);
            i += 1;
            assert(scratch@ =~= before + Seq::new((i - start) as nat, |i: int| 0u8));
        }
    }
}

} // verus!
