use vstd::prelude::*;

verus! {

/// The error type of the image crate.
#[verifier::external_type_specification]
#[verifier::external_body]
pub struct ExImageError(image::ImageError);

/// Decodes `bytes` with `image::load_from_memory` and converts the result
/// with `DynamicImage::to_rgba8`, giving the RGBA rows, the width and the
/// height.
///
/// The contract claims only what holds of every outcome: the buffer holds at
/// least four bytes for each pixel (the image crate builds it that way). It
/// does not say which pixels come back, nor whether the bytes decode at all:
/// that also depends on the format and decoder hooks registered with the
/// image crate at the time of the call. The image crate panics when one of
/// its hook registries' locks is poisoned; that is not excluded here.
#[verifier::external_body]
pub(crate) fn decode_rgba(bytes: &[u8]) -> (r: Result<(Vec<u8>, u32, u32), image::ImageError>)
    ensures
        r matches Ok((data, w, h)) ==> data@.len() >= 4 * w * h,
{
    match image::load_from_memory(bytes) {
        Ok(img) => {
            let rgba = img.to_rgba8();
            let (w, h) = rgba.dimensions();
            Ok((rgba.into_raw(), w, h))
        },
        Err(e) => Err(e),
    }
}

/// The message of an image-crate error, through its `Display` impl. Nothing
/// is claimed of the text.
#[verifier::external_body]
pub(crate) fn image_error_message(e: &image::ImageError) -> String {
    e.to_string()
}

} // verus!
