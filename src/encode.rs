//! Encoding of the finished image: palette quantisation, then lossless
//! recompression of the PNG file.
use vstd::prelude::*;
use rgb::FromSlice;
use crate::raster::Image;
use crate::region::FramerError;

verus! {

#[verifier::external_type_specification]
#[verifier::external_body]
pub struct ExPngError(oxipng::PngError);

/// Whether `oxipng::optimize_from_memory` with `Options::from_preset(level)`
/// succeeds on the file `png`.
pub uninterp spec fn oxipng_accepts(png: Seq<u8>, level: u8) -> bool;

/// What `oxipng::optimize_from_memory` with `Options::from_preset(level)`
/// makes of the PNG file `png` when it succeeds.
pub uninterp spec fn oxipng_output(png: Seq<u8>, level: u8) -> Seq<u8>;

/// Relies on `oxipng::optimize_from_memory` with `oxipng::Options::from_preset(level)`:
/// with no timeout and no threads, whether it succeeds and the recompressed
/// file depend on the input bytes and the level alone.
#[verifier::external_body]
fn optimize_png(png: &Vec<u8>, level: u8) -> (r: Result<Vec<u8>, oxipng::PngError>)
    ensures
        r is Ok <==> oxipng_accepts(png@, level),
        r matches Ok(v) ==> v@ == oxipng_output(png@, level),
{
    oxipng::optimize_from_memory(png, &oxipng::Options::from_preset(level))
}

/// Recompresses a PNG file losslessly at optimisation `level` (0 fastest,
/// 6 smallest). A file that oxipng cannot process gives `CompressionError`.
pub fn oxipng_optimize(png: &Vec<u8>, level: u8) -> (r: Result<Vec<u8>, FramerError>)
    requires
        level <= 6,
    ensures
        r is Ok <==> oxipng_accepts(png@, level),
        r matches Ok(v) ==> v@ == oxipng_output(png@, level),
        r matches Err(e) ==> e is CompressionError,
{
    match optimize_png(png, level) {
        Ok(v) => Ok(v),
        Err(_) => Err(FramerError::CompressionError),
    }
}

/// Whether palette quantisation with imagequant at `speed`, followed by
/// lodepng's encoding with that palette, succeeds on a `w` by `h` RGBA image.
pub uninterp spec fn pngquant_accepts(rgba: Seq<u8>, w: u32, h: u32, speed: u8) -> bool;

/// The palette PNG file that imagequant at `speed` and lodepng's encoder make
/// of a `w` by `h` RGBA image.
pub uninterp spec fn pngquant_output(rgba: Seq<u8>, w: u32, h: u32, speed: u8) -> Seq<u8>;

/// Relies on `imagequant::new`, `Attributes::set_speed`, `Attributes::new_image`
/// (default gamma), `Attributes::quantize`, `QuantizationResult::remapped`, and
/// lodepng's `Encoder::set_palette` and `Encoder::encode`: built without
/// threads, whether they succeed and the file they give depend on the pixels,
/// the size and the speed alone.
#[verifier::external_body]
fn quantize_png(img: &Image, speed: u8) -> (r: Option<Vec<u8>>)
    requires
        img.wf(),
        1 <= speed <= 10,
    ensures
        r is Some <==> pngquant_accepts(img.data@, img.width, img.height, speed),
        r matches Some(v) ==> v@ == pngquant_output(img.data@, img.width, img.height, speed),
{
    let (w, h) = (img.width as usize, img.height as usize);
    let mut liq = imagequant::new();
    liq.set_speed(speed as i32).ok()?;
    let mut q = liq.new_image(img.data.as_rgba(), w, h, Default::default()).ok()?;
    let (palette, pixels) = liq.quantize(&mut q).ok()?.remapped(&mut q).ok()?;
    let mut enc = lodepng::Encoder::new();
    enc.set_palette(&palette).ok()?;
    enc.encode(&pixels, w, h).ok()
}

/// Quantises the image to a palette at `speed` (1 slowest and best, 10
/// fastest) and encodes it as a PNG file. A failure gives `CompressionError`.
pub fn pngquant_optimize(img: &Image, speed: u8) -> (r: Result<Vec<u8>, FramerError>)
    requires
        img.wf(),
        1 <= speed <= 10,
    ensures
        r is Ok <==> pngquant_accepts(img.data@, img.width, img.height, speed),
        r matches Ok(v) ==> v@ == pngquant_output(img.data@, img.width, img.height, speed),
        r matches Err(e) ==> e is CompressionError,
{
    match quantize_png(img, speed) {
        Some(v) => Ok(v),
        None => Err(FramerError::CompressionError),
    }
}

} // verus!
