//! Decoding and encoding of image files, done by the `image` crate.

use vstd::prelude::*;

verus! {

/// The file formats that palette images are decoded from.
#[derive(Clone, Copy, Debug, PartialEq, Eq, Structural)]
pub enum PaletteFormat {
    Png,
    Jpeg,
    WebP,
}

/// The error type of the `image` crate, carried through as it is.
#[verifier::external_type_specification]
#[verifier::external_body]
pub struct ExImageError(image::ImageError);

/// The format that the `image` crate reads a file extension as, among the
/// formats of `PaletteFormat`; `None` for every other extension.
pub uninterp spec fn decoder_format(extension: Seq<char>) -> Option<PaletteFormat>;

/// Asks `image::ImageFormat::from_extension` which format an extension stands
/// for, in any letter case. The crate's PNG, JPEG and WebP come out as
/// themselves; an extension that the crate does not know, or knows as a
/// format that `PaletteFormat` does not have, comes out as `None`. The
/// contract only names the result.
#[verifier::external_body]
pub(crate) fn image_format(extension: &str) -> (format: Option<PaletteFormat>)
    ensures
        format == decoder_format(extension@),
{
    match image::ImageFormat::from_extension(extension) {
        Some(image::ImageFormat::Png) => Some(PaletteFormat::Png),
        Some(image::ImageFormat::Jpeg) => Some(PaletteFormat::Jpeg),
        Some(image::ImageFormat::WebP) => Some(PaletteFormat::WebP),
        _ => None,
    }
}

/// What decoding `bytes` as a file of the given format and converting the
/// picture to packed 8-bit RGB gives: width, height and the raw buffer, or
/// `None` where the decoder rejects the bytes.
pub uninterp spec fn decoded_rgb8(format: PaletteFormat, bytes: Seq<u8>) -> Option<
    (u32, u32, Seq<u8>),
>;

/// Decodes with `image::load_from_memory_with_format` and hands out the
/// picture's 8-bit RGB form as plain values (`DynamicImage::into_rgb8`,
/// `ImageBuffer::dimensions`, `ImageBuffer::into_raw`). The contract names
/// the result and claims one thing of it: the buffer is long enough for the
/// dimensions, which every constructor of `ImageBuffer` makes sure of.
/// Nothing is claimed about the buffer's contents.
#[verifier::external_body]
pub(crate) fn decode_rgb8(format: PaletteFormat, bytes: &[u8]) -> (decoded: Result<
    (u32, u32, Vec<u8>),
    image::ImageError,
>)
    ensures
        decoded matches Ok(parts) ==> decoded_rgb8(format, bytes@) == Some(
            (parts.0, parts.1, parts.2@),
        ),
        decoded matches Ok(parts) ==> 3 * (parts.0 * parts.1) <= parts.2@.len(),
        decoded is Err ==> decoded_rgb8(format, bytes@) is None,
{
    let format = match format {
        PaletteFormat::Png => image::ImageFormat::Png,
        PaletteFormat::Jpeg => image::ImageFormat::Jpeg,
        PaletteFormat::WebP => image::ImageFormat::WebP,
    };
    let rgb = image::load_from_memory_with_format(bytes, format)?.into_rgb8();
    let (width, height) = rgb.dimensions();
    Ok((width, height, rgb.into_raw()))
}

/// The PNG file that holds a packed 8-bit RGB buffer of the given dimensions,
/// or `None` where the encoder fails.
pub uninterp spec fn png_encoding(width: u32, height: u32, data: Seq<u8>) -> Option<Seq<u8>>;

/// Encodes with `image::write_buffer_with_format` into memory, as PNG with
/// colour type `Rgb8`. The encoder panics on a buffer whose length is not
/// three bytes per pixel, which the precondition rules out. The contract only
/// names the result.
#[verifier::external_body]
pub(crate) fn encode_png(width: u32, height: u32, data: &[u8]) -> (encoded: Result<
    Vec<u8>,
    image::ImageError,
>)
    requires
        data@.len() == 3 * (width * height),
    ensures
        encoded matches Ok(file) ==> png_encoding(width, height, data@) == Some(file@),
        encoded is Err ==> png_encoding(width, height, data@) is None,
{
    let mut file = std::io::Cursor::new(Vec::new());
    image::write_buffer_with_format(
        &mut file,
        data,
        width,
        height,
        image::ExtendedColorType::Rgb8,
        image::ImageFormat::Png,
    )?;
    Ok(file.into_inner())
}

/// The text of an `image` error, from its `Display` impl. Nothing is claimed
/// about it.
#[verifier::external_body]
pub(crate) fn image_error_text(error: &image::ImageError) -> String {
    error.to_string()
}

} // verus!
