//! The QR code that a tablet scans to connect.

use vstd::arithmetic::div_mod::lemma_fundamental_div_mod_converse;
use vstd::prelude::*;

verus! {

/// `qrcode::types::QrError`, the reason why a text does not fit a QR code.
#[verifier::external_type_specification]
#[verifier::external_body]
pub struct ExQrError(qrcode::types::QrError);

/// How much of a QR code may be unreadable.
#[derive(Debug, Clone, Copy, PartialEq, Eq, Structural)]
pub enum Correction {
    Low,
    Medium,
    Quartile,
    High,
}

/// The QR code of a text: the number of modules along a side, and for each module, row by row,
/// whether it is dark. None if the text is too long.
pub uninterp spec fn qr_modules(text: Seq<char>, level: Correction) -> Option<(u32, Seq<bool>)>;

/// The PNG file of an 8-bit grey image. None if it cannot be encoded.
pub uninterp spec fn grey_png(width: u32, height: u32, pixels: Seq<u8>) -> Option<Seq<u8>>;

/// Modules in the white border on each side.
pub const QUIET_ZONE: u32 = 4;

/// Pixels along a side of a drawing with `unit` by `unit` pixels a module.
pub open spec fn drawn_side(modules: u32, unit: u32) -> int {
    (modules + 2 * QUIET_ZONE) * unit
}

/// The module in a column and a row is dark. Columns and rows are counted from the border's edge.
pub open spec fn is_dark(modules: u32, dark: Seq<bool>, column: int, row: int) -> bool {
    let x = column - QUIET_ZONE;
    let y = row - QUIET_ZONE;
    0 <= x < modules && 0 <= y < modules && dark[y * modules + x]
}

/// The drawing, row by row: dark modules are black, everything else is white.
pub open spec fn drawn_pixels(modules: u32, dark: Seq<bool>, unit: u32) -> Seq<u8> {
    let side = drawn_side(modules, unit);
    Seq::new(
        (side * side) as nat,
        |i: int|
            if is_dark(modules, dark, i % side / (unit as int), i / side / (unit as int)) {
                0u8
            } else {
                255u8
            },
    )
}

/// `qrcode::QrCode::with_error_correction_level` followed by `QrCode::render`,
/// `Renderer::module_dimensions`, `Renderer::quiet_zone` and `Renderer::build` on 8-bit grey pixels.
/// The code is a function of the text and the level; it has between 21 and 177 modules along a side.
/// Which of them are dark is not said. The drawing puts a white border of four modules round the code
/// and draws each module as a square.
#[verifier::external_body]
fn draw_qr(text: &str, level: Correction, unit: u32) -> (drawn: Result<
    (u32, Vec<u8>),
    qrcode::types::QrError,
>)
    requires
        0 < unit <= 32,
    ensures
        match drawn {
            Ok((side, pixels)) => qr_modules(text@, level) matches Some((modules, dark)) && {
                &&& 21 <= modules <= 177
                &&& dark.len() == modules * modules
                &&& side == drawn_side(modules, unit)
                &&& pixels@ == drawn_pixels(modules, dark, unit)
            },
            Err(_) => qr_modules(text@, level) is None,
        },
{
    let level = match level {
        Correction::Low => qrcode::EcLevel::L,
        Correction::Medium => qrcode::EcLevel::M,
        Correction::Quartile => qrcode::EcLevel::Q,
        Correction::High => qrcode::EcLevel::H,
    };
    let code = qrcode::QrCode::with_error_correction_level(text, level)?;
    let drawn = code.render::<image::Luma<u8>>().module_dimensions(unit, unit).quiet_zone(true).build();
    Ok((drawn.width(), drawn.into_raw()))
}

/// `image::DynamicImage::write_to` with `ImageFormat::Png` on an 8-bit grey image. The result is a
/// function of the arguments; what the file holds is not said.
#[verifier::external_body]
fn encode_png(width: u32, height: u32, pixels: Vec<u8>) -> (png: Option<Vec<u8>>)
    requires
        pixels@.len() == width * height,
    ensures
        bytes_view(png) == grey_png(width, height, pixels@),
{
    let img = image::GrayImage::from_raw(width, height, pixels)?;
    let mut png: Vec<u8> = Vec::new();
    let mut file = std::io::Cursor::new(&mut png);
    image::DynamicImage::ImageLuma8(img).write_to(&mut file, image::ImageFormat::Png).ok()?;
    Some(png)
}

/// Pixels along a side of one module.
pub const MODULE_PIXELS: u32 = 8;

/// The PNG file of a QR code, if there is one.
pub open spec fn png_of(code: Option<(u32, Seq<bool>)>) -> Option<Seq<u8>> {
    match code {
        Some((modules, dark)) => {
            let side = drawn_side(modules, MODULE_PIXELS) as u32;
            grey_png(side, side, drawn_pixels(modules, dark, MODULE_PIXELS))
        },
        None => None,
    }
}

/// The contents of an optional byte vector.
pub open spec fn bytes_view(v: Option<Vec<u8>>) -> Option<Seq<u8>> {
    match v {
        Some(b) => Some(b@),
        None => None,
    }
}

/// The PNG file of a square grey image, or of none.
pub fn png_for_drawing(drawn: Option<(u32, Vec<u8>)>) -> (png: Option<Vec<u8>>)
    requires
        drawn matches Some((side, pixels)) ==> pixels@.len() == side * side,
    ensures
        bytes_view(png) == (match drawn {
            Some((side, pixels)) => grey_png(side, side, pixels@),
            None => None,
        }),
{
    match drawn {
        Some((side, pixels)) => encode_png(side, side, pixels),
        None => None,
    }
}

/// Renders the QR code of a text as a PNG file. None if the text is too long or the image cannot be
/// encoded.
pub fn qr_png_for_url(text: &str) -> (png: Option<Vec<u8>>)
    ensures
        bytes_view(png) == png_of(qr_modules(text@, Correction::Low)),
{
    match draw_qr(text, Correction::Low, MODULE_PIXELS) {
        Ok((side, pixels)) => {
            assert(side * side >= 0) by (nonlinear_arith)
                requires
                    side >= 0,
            ;
            png_for_drawing(Some((side, pixels)))
        },
        Err(_) => png_for_drawing(None),
    }
}

/// A reader finds the code: the border is white, and every pixel of a module has the module's
/// colour.
pub proof fn drawing_shows_code(modules: u32, dark: Seq<bool>, unit: u32, x: int, y: int)
    requires
        0 < unit,
        0 <= x < drawn_side(modules, unit),
        0 <= y < drawn_side(modules, unit),
    ensures
        ({
            let side = drawn_side(modules, unit);
            let column = x / (unit as int);
            let row = y / (unit as int);
            let pixel = drawn_pixels(modules, dark, unit)[y * side + x];
            &&& pixel == (if is_dark(modules, dark, column, row) {
                0u8
            } else {
                255u8
            })
            &&& column < QUIET_ZONE || row < QUIET_ZONE || column >= modules + QUIET_ZONE || row
                >= modules + QUIET_ZONE ==> pixel == 255
        }),
{
    let side = drawn_side(modules, unit);
    assert(0 <= y * side + x < side * side) by (nonlinear_arith)
        requires
            0 <= x < side,
            0 <= y < side,
    ;
    lemma_fundamental_div_mod_converse(y * side + x, side, y, x);
}

} // verus!
