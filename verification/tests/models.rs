use imgproc::models::build_image_response;

#[test]
fn test_get_image_info_success() {
    let r = build_image_response("test123");
    assert_eq!(r.url, "https://cdn.example.com/images/test123.jpg");
    assert_eq!(r.filename, "test123.jpg");
    assert_eq!(r.size, 512000);
    assert_eq!(r.mime_type, "image/jpeg");
    assert_eq!(r.width, 1024);
    assert_eq!(r.height, 768);
}

#[test]
fn image_info_for_empty_id() {
    let r = build_image_response("");
    assert_eq!(r.url, "https://cdn.example.com/images/.jpg");
    assert_eq!(r.filename, ".jpg");
}
