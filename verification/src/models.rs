//! The shapes of the service's replies.

use vstd::prelude::*;

verus! {

/// What the service reports about a stored image.
pub struct ImageInfoResponse {
    pub url: String,
    pub filename: String,
    pub size: u64,
    pub mime_type: String,
    pub width: u32,
    pub height: u32,
}

/// The description of the stored image with the given id: a JPEG of
/// 1024 by 768 pixels and 512000 bytes, named after the id and served
/// from the image CDN.
pub fn build_image_response(image_id: &str) -> (r: ImageInfoResponse)
    ensures
        r.url@ == "https://cdn.example.com/images/"@ + image_id@ + ".jpg"@,
        r.filename@ == image_id@ + ".jpg"@,
        r.size == 512_000,
        r.mime_type@ == "image/jpeg"@,
        r.width == 1024,
        r.height == 768,
{
    let url = String::from_str("https://cdn.example.com/images/").concat(image_id).concat(".jpg");
    let filename = String::from_str(image_id).concat(".jpg");
    ImageInfoResponse {
        url,
        filename,
        size: 512_000,
        mime_type: String::from_str("image/jpeg"),
        width: 1024,
        height: 768,
    }
}

} // verus!
