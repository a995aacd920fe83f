use imgproc::media::{
    choose_filename, download_file_name, extension_from_content_type, extract_filename,
    filename_from_disposition, has_image_extension, image_urls_among, is_image_url,
};

#[test]
fn image_types_map_to_their_extensions() {
    assert_eq!(extension_from_content_type("image/jpeg"), "jpg");
    assert_eq!(extension_from_content_type("image/pjpeg"), "jpg");
    assert_eq!(extension_from_content_type("image/png"), "png");
    assert_eq!(extension_from_content_type("image/gif"), "gif");
    assert_eq!(extension_from_content_type("image/bmp"), "bmp");
    assert_eq!(extension_from_content_type("image/webp"), "webp");
    assert_eq!(extension_from_content_type("image/tiff"), "tiff");
    assert_eq!(extension_from_content_type("image/x-tiff"), "tiff");
    assert_eq!(extension_from_content_type("image/x-icon"), "ico");
    assert_eq!(extension_from_content_type("image/vnd.microsoft.icon"), "ico");
    assert_eq!(extension_from_content_type("image/heif"), "heif");
    assert_eq!(extension_from_content_type("image/heic"), "heic");
    assert_eq!(extension_from_content_type("image/avif"), "avif");
    assert_eq!(extension_from_content_type("image/svg+xml"), "svg");
    assert_eq!(extension_from_content_type("image/x-canon-cr2"), "cr2");
    assert_eq!(extension_from_content_type("image/x-nikon-nef"), "nef");
}

#[test]
fn other_known_types_map_to_their_extensions() {
    assert_eq!(extension_from_content_type("application/pdf"), "pdf");
    assert_eq!(extension_from_content_type("text/plain"), "txt");
    assert_eq!(extension_from_content_type("application/zip"), "zip");
}

#[test]
fn unknown_types_map_to_bin() {
    assert_eq!(extension_from_content_type("application/octet-stream"), "bin");
    assert_eq!(extension_from_content_type(""), "bin");
    assert_eq!(extension_from_content_type("IMAGE/JPEG"), "bin");
    assert_eq!(extension_from_content_type("image/jpeg; charset=binary"), "bin");
}

#[test]
fn image_urls_are_recognised_by_extension() {
    for ext in [
        "png", "jpg", "jpeg", "gif", "webp", "bmp", "svg", "tiff", "tif", "ico", "heic", "avif",
        "jfif", "apng",
    ] {
        let url = format!("https://example.com/a/picture.{}", ext);
        assert!(is_image_url(&url), "{}", url);
    }
}

#[test]
fn image_urls_are_recognised_regardless_of_case() {
    assert!(is_image_url("https://example.com/PHOTO.JPG"));
    assert!(is_image_url("https://example.com/x.Png"));
    assert!(!has_image_extension("https://example.com/PHOTO.JPG"));
}

#[test]
fn non_image_urls_are_not_recognised() {
    assert!(!is_image_url("https://example.com/index.html"));
    assert!(!is_image_url("https://example.com/photo.jpg?size=large"));
    assert!(!is_image_url("https://example.com/png"));
    assert!(!is_image_url(""));
    assert!(!has_image_extension("document.pdf"));
    assert!(has_image_extension(".png"));
}

#[test]
fn disposition_file_name_is_unquoted() {
    assert_eq!(
        filename_from_disposition("attachment; filename=\"photo.jpg\""),
        Some("photo.jpg".to_string())
    );
    assert_eq!(filename_from_disposition("inline; filename='a b.png'"), Some("a b.png".to_string()));
    assert_eq!(filename_from_disposition("filename=plain.gif"), Some("plain.gif".to_string()));
    assert_eq!(filename_from_disposition("filename=\"'x'\"\"'"), Some("x".to_string()));
}

#[test]
fn disposition_without_usable_file_name_gives_none() {
    assert_eq!(filename_from_disposition("attachment"), None);
    assert_eq!(filename_from_disposition("attachment; filename=\"\""), None);
    assert_eq!(filename_from_disposition("attachment; filename="), None);
    assert_eq!(filename_from_disposition(""), None);
}

#[test]
fn first_filename_marker_is_used() {
    assert_eq!(
        filename_from_disposition("filename=a.png; filename=b.png"),
        Some("a.png; filename=b.png".to_string())
    );
}

#[test]
fn file_name_prefers_disposition_then_url_then_fallback() {
    assert_eq!(
        choose_filename(Some("attachment; filename=\"d.jpg\""), Some("u.jpg"), "png"),
        "d.jpg"
    );
    assert_eq!(choose_filename(Some("attachment"), Some("u.jpg"), "png"), "u.jpg");
    assert_eq!(choose_filename(None, Some(""), "png"), "downloaded_file.png");
    assert_eq!(choose_filename(None, None, "gif"), "downloaded_file.gif");
}

#[test]
fn file_name_is_taken_from_the_url_path() {
    assert_eq!(extract_filename("https://example.com/images/cat.png", None, "jpg"), "cat.png");
    assert_eq!(
        extract_filename("https://example.com/a/b/report%201.pdf?x=1#frag", None, "bin"),
        "report%201.pdf"
    );
}

#[test]
fn file_name_falls_back_when_url_has_no_last_segment() {
    assert_eq!(extract_filename("https://example.com/", None, "jpg"), "downloaded_file.jpg");
    assert_eq!(extract_filename("https://example.com/dir/", None, "png"), "downloaded_file.png");
    assert_eq!(extract_filename("not a url", None, "gif"), "downloaded_file.gif");
    assert_eq!(extract_filename("data:text/plain,hello", None, "txt"), "downloaded_file.txt");
}

#[test]
fn disposition_beats_url_when_extracting() {
    assert_eq!(
        extract_filename("https://example.com/images/cat.png", Some("attachment; filename=dog.png"), "jpg"),
        "dog.png"
    );
}

#[test]
fn download_name_uses_the_content_type_extension() {
    assert_eq!(download_file_name("https://example.com/", Some("image/webp"), None), "downloaded_file.webp");
    assert_eq!(download_file_name("https://example.com/", None, None), "downloaded_file.bin");
    assert_eq!(download_file_name("https://example.com/p/q.heic", Some("image/heic"), None), "q.heic");
}

#[test]
fn image_urls_are_kept_in_order_with_case_and_repeats() {
    let urls: Vec<String> = vec![
        "https://a.example/x.PNG".into(),
        "https://a.example/page.html".into(),
        "https://a.example/y.jpg".into(),
        "https://a.example/x.PNG".into(),
        "https://a.example/style.css".into(),
    ];
    assert_eq!(
        image_urls_among(&urls),
        vec![
            "https://a.example/x.PNG".to_string(),
            "https://a.example/y.jpg".to_string(),
            "https://a.example/x.PNG".to_string(),
        ]
    );
    assert!(image_urls_among(&Vec::new()).is_empty());
}
