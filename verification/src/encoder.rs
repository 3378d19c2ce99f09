//! The external encoder: how it is started, for the stream of a client and for a dump to a file.

use vstd::prelude::*;

use crate::text::{decimal, decimal_string};

verus! {

/// The program that encodes.
pub const PROGRAM: &'static str = "ffmpeg";

/// The contents of a list of strings.
pub open spec fn string_views(v: Seq<String>) -> Seq<Seq<char>> {
    v.map_values(|s: String| s@)
}

/// Width and height with an `x` between them.
pub open spec fn size_text(width: u32, height: u32) -> Seq<char> {
    decimal(width as nat) + "x"@ + decimal(height as nat)
}

/// Width and height with an `x` between them.
pub fn size_string(width: u32, height: u32) -> (s: String)
    ensures
        s@ == size_text(width, height),
{
    let mut s = decimal_string(width as u64);
    s.append("x");
    s.append(decimal_string(height as u64).as_str());
    s
}

/// Adds an argument.
fn arg(args: &mut Vec<String>, text: &str)
    ensures
        string_views(final(args)@) == string_views(old(args)@).push(text@),
{
    let s = String::from_str(text);
    args.push(s);
    assert(string_views(args@) =~= string_views(old(args)@).push(text@));
}

/// Frames between two key frames: half a second's worth, but at least one.
pub open spec fn gop(fps: u32) -> int {
    if fps / 2 < 1 {
        1
    } else {
        (fps / 2) as int
    }
}

/// The input side: raw frames of three bytes a pixel, from the standard input.
pub open spec fn input_args(width: u32, height: u32, fps: u32) -> Seq<Seq<char>> {
    seq![
        "-loglevel"@,
        "warning"@,
        "-f"@,
        "rawvideo"@,
        "-pix_fmt"@,
        "rgb24"@,
        "-s"@,
        size_text(width, height),
        "-framerate"@,
        decimal(fps as nat),
        "-i"@,
        "pipe:0"@,
    ]
}

/// The encoder itself, on the graphics card.
pub open spec fn codec_args() -> Seq<Seq<char>> {
    seq![
        "-vaapi_device"@,
        "/dev/dri/renderD128"@,
        "-vf"@,
        "format=nv12,hwupload"@,
        "-c:v"@,
        "h264_vaapi"@,
    ]
}

/// The output side of a stream: constant quality and no reordering for the least delay, access unit
/// delimiters to cut the stream at, and parameter sets at every key frame.
pub open spec fn stream_args(fps: u32) -> Seq<Seq<char>> {
    seq![
        "-rc_mode"@,
        "CQP"@,
        "-qp"@,
        "22"@,
        "-quality"@,
        "7"@,
        "-g"@,
        decimal(gop(fps) as nat),
        "-bf"@,
        "0"@,
        "-async_depth"@,
        "1"@,
        "-aud"@,
        "1"@,
        "-bsf:v"@,
        "dump_extra=freq=keyframe"@,
        "-f"@,
        "h264"@,
        "pipe:1"@,
    ]
}

/// The output side of a dump.
pub open spec fn dump_args(path: Seq<char>) -> Seq<Seq<char>> {
    seq!["-b:v"@, "8M"@, "-g"@, "60"@, path]
}

/// Adds the input side.
fn push_input(args: &mut Vec<String>, width: u32, height: u32, fps: u32)
    ensures
        string_views(final(args)@) == string_views(old(args)@) + input_args(width, height, fps),
{
    arg(args, "-loglevel");
    arg(args, "warning");
    arg(args, "-f");
    arg(args, "rawvideo");
    arg(args, "-pix_fmt");
    arg(args, "rgb24");
    arg(args, "-s");
    arg(args, size_string(width, height).as_str());
    arg(args, "-framerate");
    arg(args, decimal_string(fps as u64).as_str());
    arg(args, "-i");
    arg(args, "pipe:0");
    assert(string_views(args@) =~= string_views(old(args)@) + input_args(width, height, fps));
}

/// Adds the encoder itself.
fn push_codec(args: &mut Vec<String>)
    ensures
        string_views(final(args)@) == string_views(old(args)@) + codec_args(),
{
    arg(args, "-vaapi_device");
    arg(args, "/dev/dri/renderD128");
    arg(args, "-vf");
    arg(args, "format=nv12,hwupload");
    arg(args, "-c:v");
    arg(args, "h264_vaapi");
    assert(string_views(args@) =~= string_views(old(args)@) + codec_args());
}

/// The encoder of a client's stream.
#[derive(Debug)]
pub struct H264Encoder {
    pub args: Vec<String>,
}

impl H264Encoder {
    /// The encoder for frames of a size.
    pub fn spawn(width: u32, height: u32, fps: u32) -> (encoder: H264Encoder)
        ensures
            string_views(encoder.args@) == input_args(width, height, fps) + codec_args()
                + stream_args(fps),
    {
        let mut args: Vec<String> = Vec::new();
        push_input(&mut args, width, height, fps);
        push_codec(&mut args);
        let ghost before = string_views(args@);
        let half: u32 = fps / 2;
        let key: u32 = if half < 1 {
            1
        } else {
            half
        };
        arg(&mut args, "-rc_mode");
        arg(&mut args, "CQP");
        arg(&mut args, "-qp");
        arg(&mut args, "22");
        arg(&mut args, "-quality");
        arg(&mut args, "7");
        arg(&mut args, "-g");
        arg(&mut args, decimal_string(key as u64).as_str());
        arg(&mut args, "-bf");
        arg(&mut args, "0");
        arg(&mut args, "-async_depth");
        arg(&mut args, "1");
        arg(&mut args, "-aud");
        arg(&mut args, "1");
        arg(&mut args, "-bsf:v");
        arg(&mut args, "dump_extra=freq=keyframe");
        arg(&mut args, "-f");
        arg(&mut args, "h264");
        arg(&mut args, "pipe:1");
        assert(string_views(args@) =~= before + stream_args(fps));
        assert(before =~= input_args(width, height, fps) + codec_args());
        H264Encoder { args }
    }
}

/// The encoder of a dump to a file.
#[derive(Debug)]
pub struct H264Dump {
    pub args: Vec<String>,
    /// Frames are still written.
    pub open: bool,
}

impl H264Dump {
    /// The dump of frames of a size to a file. None if the path is no text.
    pub fn new(width: u32, height: u32, fps: u32, path: Option<&str>) -> (dump: Option<H264Dump>)
        ensures
            match dump {
                Some(d) => {
                    &&& path is Some
                    &&& string_views(d.args@) == seq!["-y"@] + input_args(width, height, fps)
                        + codec_args() + dump_args(path->0@)
                    &&& d.open
                },
                None => path is None,
            },
    {
        let path = match path {
            Some(path) => path,
            None => return None,
        };
        let mut args: Vec<String> = Vec::new();
        arg(&mut args, "-y");
        assert(string_views(args@) =~= seq!["-y"@]);
        push_input(&mut args, width, height, fps);
        push_codec(&mut args);
        let ghost before = string_views(args@);
        arg(&mut args, "-b:v");
        arg(&mut args, "8M");
        arg(&mut args, "-g");
        arg(&mut args, "60");
        arg(&mut args, path);
        assert(string_views(args@) =~= before + dump_args(path@));
        Some(H264Dump { args, open: true })
    }

    /// Takes the result of writing a frame. After a failure no more frames are written.
    pub fn write_rgb(&mut self, written: bool)
        ensures
            final(self).open == (old(self).open && written),
            final(self).args == old(self).args,
    {
        if !written {
            self.open = false;
        }
    }
}

/// Two arguments follow one another.
pub open spec fn has_option(args: Seq<Seq<char>>, option: Seq<char>, value: Seq<char>) -> bool {
    exists|i: int| 0 <= i && i + 1 < args.len() && #[trigger] args[i] == option && args[i + 1] == value
}

/// The encoder is told what it is fed, raw frames of three bytes a pixel in the size of the frames,
/// and a key frame twice a second; it reads them from its input and writes a stream with delimiters
/// to its output.
pub proof fn encoder_is_told_what_it_is_fed(width: u32, height: u32, fps: u32)
    ensures
        ({
            let args = input_args(width, height, fps) + codec_args() + stream_args(fps);
            &&& has_option(args, "-f"@, "rawvideo"@)
            &&& has_option(args, "-pix_fmt"@, "rgb24"@)
            &&& has_option(args, "-s"@, decimal(width as nat) + "x"@ + decimal(height as nat))
            &&& has_option(args, "-framerate"@, decimal(fps as nat))
            &&& has_option(args, "-i"@, "pipe:0"@)
            &&& has_option(args, "-c:v"@, "h264_vaapi"@)
            &&& has_option(args, "-bf"@, "0"@)
            &&& has_option(args, "-aud"@, "1"@)
            &&& has_option(args, "-bsf:v"@, "dump_extra=freq=keyframe"@)
            &&& fps >= 2 ==> has_option(args, "-g"@, decimal((fps / 2) as nat))
            &&& fps < 2 ==> has_option(args, "-g"@, decimal(1))
            &&& args[args.len() - 3] == "-f"@ && args[args.len() - 2] == "h264"@ && args.last()
                == "pipe:1"@
        }),
{
    let args = input_args(width, height, fps) + codec_args() + stream_args(fps);
    assert(args.len() == 37);
    assert(args[2] == "-f"@ && args[3] == "rawvideo"@);
    assert(args[4] == "-pix_fmt"@ && args[5] == "rgb24"@);
    assert(args[6] == "-s"@ && args[7] == size_text(width, height));
    assert(args[8] == "-framerate"@ && args[9] == decimal(fps as nat));
    assert(args[10] == "-i"@ && args[11] == "pipe:0"@);
    assert(args[16] == "-c:v"@ && args[17] == "h264_vaapi"@);
    assert(args[24] == "-g"@ && args[25] == decimal(gop(fps) as nat));
    assert(args[26] == "-bf"@ && args[27] == "0"@);
    assert(args[30] == "-aud"@ && args[31] == "1"@);
    assert(args[32] == "-bsf:v"@ && args[33] == "dump_extra=freq=keyframe"@);
}

/// A dump is told the same of its frames, overwrites its file, and names it last.
pub proof fn dump_goes_to_file(width: u32, height: u32, fps: u32, path: Seq<char>)
    ensures
        ({
            let args = seq!["-y"@] + input_args(width, height, fps) + codec_args() + dump_args(path);
            &&& args[0] == "-y"@
            &&& args.last() == path
            &&& has_option(args, "-pix_fmt"@, "rgb24"@)
            &&& has_option(args, "-s"@, decimal(width as nat) + "x"@ + decimal(height as nat))
            &&& has_option(args, "-framerate"@, decimal(fps as nat))
            &&& has_option(args, "-c:v"@, "h264_vaapi"@)
        }),
{
    let args = seq!["-y"@] + input_args(width, height, fps) + codec_args() + dump_args(path);
    assert(args.len() == 24);
    assert(args[5] == "-pix_fmt"@ && args[6] == "rgb24"@);
    assert(args[7] == "-s"@ && args[8] == size_text(width, height));
    assert(args[9] == "-framerate"@ && args[10] == decimal(fps as nat));
    assert(args[17] == "-c:v"@ && args[18] == "h264_vaapi"@);
}

} // verus!
