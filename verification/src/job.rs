//! Preparing an image job: what the host sends, in which order, to burn a
//! picture at a given place.

use vstd::prelude::*;

use crate::protocol::{image_info, spec_image_info, MAX_HEIGHT, MAX_WIDTH};
use crate::raster::{
    encode_image, spec_encode_image, spec_threshold_image, threshold_image, ImageTooLarge, Picture,
};

verus! {

/// An image job: the header to send first, then (after the device has taken
/// it) the payload, or the reason why the picture cannot be burned.
pub struct BurnPlan {
    /// The thresholded picture that is burned.
    pub image: Picture,
    /// Its width and height, as the header carries them (modulo 2^16).
    pub width: u16,
    pub height: u16,
    /// The image header.
    pub header: Vec<u8>,
    /// The encoded picture, or the error when it exceeds the work area.
    pub payload: Result<Vec<u8>, ImageTooLarge>,
}

/// Thresholds the picture, and prepares the header and the payload that burn
/// it at `(x, y)`.  `None` exactly when the width, taken modulo 2^16, is too
/// close to 2^16 for the header to round it up to a multiple of 8.
pub fn plan_burn(img: &Picture, x: u16, y: u16, threshold: u8, invert: bool) -> (plan: Option<
    BurnPlan,
>)
    ensures
        plan is None <==> img@.width as u16 > 65528,
        plan matches Some(p) ==> {
            &&& p.image@ == spec_threshold_image(img@, threshold, invert)
            &&& p.width == img@.width as u16
            &&& p.height == img@.height as u16
            &&& p.header@ == spec_image_info(x, y, p.width, p.height)
            &&& (p.payload is Ok <==> img@.width <= MAX_WIDTH && img@.height <= MAX_HEIGHT)
            &&& match p.payload {
                Ok(bytes) => bytes@ == spec_encode_image(p.image@),
                Err(e) => e == ImageTooLarge { width: img@.width, height: img@.height },
            }
        },
{
    let thresholded = threshold_image(img, threshold, invert);
    let w = thresholded.width() as u16;
    let h = thresholded.height() as u16;
    if w > 65528 {
        return None;
    }
    let header = image_info(x, y, w, h);
    let payload = encode_image(&thresholded);
    Some(BurnPlan { image: thresholded, width: w, height: h, header, payload })
}

} // verus!
