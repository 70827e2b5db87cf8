//! Image files decoded into 8-bit RGBA pixels: the program's own window icon
//! and the images of the icons folder.
use vstd::prelude::*;

verus! {

/// What the image crate decodes `bytes` into, guessing the format from the
/// bytes, as 8-bit RGBA: the pixel bytes, the width and the height; `None`
/// where the bytes are no image it can read.
pub uninterp spec fn rgba8_image(bytes: Seq<u8>) -> Option<(Seq<u8>, u32, u32)>;

/// What the image crate decodes `bytes` into, in the format that the file
/// extension `extension` names, as 8-bit RGBA: the pixel bytes, the width and
/// the height; `None` where the extension names no format it knows or the
/// bytes are no image of that format.
pub uninterp spec fn rgba8_image_as(bytes: Seq<u8>, extension: Seq<char>) -> Option<(Seq<u8>, u32, u32)>;

/// An RGBA pixel buffer of the given size: four bytes a pixel.
pub open spec fn rgba_fits(pixels: Seq<u8>, width: u32, height: u32) -> bool {
    pixels.len() == 4 * (width as int) * (height as int)
}

/// Calls `image::load_from_memory` and converts the image with `to_rgba8`;
/// the result is `rgba8_image` of the bytes, and its buffer holds four bytes
/// for each of the width × height pixels (as `to_rgba8` builds it).
#[verifier::external_body]
fn decode_rgba8(bytes: &[u8]) -> (r: Option<(Vec<u8>, u32, u32)>)
    ensures
        match r {
            Some(img) => rgba8_image(bytes@) == Some((img.0@, img.1, img.2)) && rgba_fits(img.0@, img.1, img.2),
            None => rgba8_image(bytes@) is None,
        },
{
    match image::load_from_memory(bytes) {
        Ok(decoded) => {
            let rgba = decoded.to_rgba8();
            let (width, height) = rgba.dimensions();
            Some((rgba.into_raw(), width, height))
        },
        Err(_) => None,
    }
}

/// Calls `image::ImageFormat::from_extension` and
/// `image::load_from_memory_with_format`, then converts the image with
/// `to_rgba8`; the result is `rgba8_image_as` of the bytes and the extension,
/// with four bytes for each of the width × height pixels.
#[verifier::external_body]
fn decode_rgba8_as(bytes: &[u8], extension: &str) -> (r: Option<(Vec<u8>, u32, u32)>)
    ensures
        match r {
            Some(img) => rgba8_image_as(bytes@, extension@) == Some((img.0@, img.1, img.2))
                && rgba_fits(img.0@, img.1, img.2),
            None => rgba8_image_as(bytes@, extension@) is None,
        },
{
    let format = image::ImageFormat::from_extension(extension)?;
    match image::load_from_memory_with_format(bytes, format) {
        Ok(decoded) => {
            let rgba = decoded.to_rgba8();
            let (width, height) = rgba.dimensions();
            Some((rgba.into_raw(), width, height))
        },
        Err(_) => None,
    }
}

/// The pixels of the window icon whose image file is `bytes`: its RGBA bytes
/// (four a pixel), width and height, or `None` where the file cannot be
/// decoded.
pub fn icon_pixels(bytes: &[u8]) -> (r: Option<(Vec<u8>, u32, u32)>)
    ensures
        match r {
            Some(img) => rgba8_image(bytes@) == Some((img.0@, img.1, img.2)) && rgba_fits(img.0@, img.1, img.2),
            None => rgba8_image(bytes@) is None,
        },
{
    decode_rgba8(bytes)
}

/// The pixels of an image file of the icons folder, read as `bytes`, in the
/// format its extension names: its RGBA bytes (four a pixel), width and
/// height, or `None` where it cannot be decoded.
pub fn icon_file_pixels(bytes: &[u8], extension: &str) -> (r: Option<(Vec<u8>, u32, u32)>)
    ensures
        match r {
            Some(img) => rgba8_image_as(bytes@, extension@) == Some((img.0@, img.1, img.2))
                && rgba_fits(img.0@, img.1, img.2),
            None => rgba8_image_as(bytes@, extension@) is None,
        },
{
    decode_rgba8_as(bytes, extension)
}

} // verus!
