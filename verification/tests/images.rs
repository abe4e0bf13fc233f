use mindscribe::db::images::{
    get_image_dimensions, image_not_found, mime_type_for, plan_upload, sanitize_filename,
};

fn png(width: u32, height: u32) -> Vec<u8> {
    let mut data = b"\x89PNG\r\n\x1a\n".to_vec();
    data.extend_from_slice(&[0, 0, 0, 13]);
    data.extend_from_slice(b"IHDR");
    data.extend_from_slice(&width.to_be_bytes());
    data.extend_from_slice(&height.to_be_bytes());
    data.extend_from_slice(&[8, 6, 0, 0, 0]);
    data
}

#[test]
fn file_names_are_sanitized() {
    assert_eq!(sanitize_filename("my photo (1).png"), "myphoto1.png");
    assert_eq!(sanitize_filename("../../etc/passwd"), "....etcpasswd");
    assert_eq!(sanitize_filename("żółw_2024-01.jpg"), "żółw_2024-01.jpg");
    assert_eq!(sanitize_filename(""), "");
    assert_eq!(sanitize_filename("a".repeat(80).as_str()), "a".repeat(50));
    let spaced = format!("{}b", "a ".repeat(60));
    assert_eq!(sanitize_filename(&spaced), "a".repeat(50));
}

#[test]
fn png_headers_give_dimensions() {
    assert_eq!(get_image_dimensions(&png(800, 600)), (Some(800), Some(600)));
    assert_eq!(get_image_dimensions(&png(1, 0x0102_0304)), (Some(1), Some(0x0102_0304)));
    // Sizes beyond the signed range wrap, as a cast does.
    assert_eq!(
        get_image_dimensions(&png(0xFFFF_FFFF, 0x8000_0000)),
        (Some(-1), Some(i32::MIN))
    );
    // Exactly 24 bytes is too short.
    assert_eq!(get_image_dimensions(&png(800, 600)[..24]), (None, None));
    assert_eq!(get_image_dimensions(&png(800, 600)[..25]), (Some(800), Some(600)));
    let mut jpeg = png(800, 600);
    jpeg[0] = 0xFF;
    assert_eq!(get_image_dimensions(&jpeg), (None, None));
    assert_eq!(get_image_dimensions(&[]), (None, None));
}

#[test]
fn extensions_name_mime_types() {
    assert_eq!(mime_type_for("png").as_deref(), Some("image/png"));
    assert_eq!(mime_type_for("JPG").as_deref(), Some("image/jpeg"));
    assert_eq!(mime_type_for("jpeg").as_deref(), Some("image/jpeg"));
    assert_eq!(mime_type_for("Gif").as_deref(), Some("image/gif"));
    assert_eq!(mime_type_for("webp").as_deref(), Some("image/webp"));
    assert_eq!(mime_type_for("bmp"), None);
    assert_eq!(mime_type_for(""), None);
}

#[test]
fn uploads_are_planned() {
    let data = png(800, 600);
    let params = plan_upload("entry-1".to_string(), "my test.PNG", "u-1", &data);
    assert_eq!(params.entry_id, "entry-1");
    assert_eq!(params.filename, "u-1_mytest.PNG.PNG");
    assert_eq!(params.relative_path, "images/entry-1/u-1_mytest.PNG.PNG");
    assert_eq!(params.mime_type.as_deref(), Some("image/png"));
    assert_eq!(params.file_size, Some(data.len() as i64));
    assert_eq!((params.width, params.height), (Some(800), Some(600)));

    let params = plan_upload("e".to_string(), "notes", "u-2", b"plain");
    assert_eq!(params.filename, "u-2_notes.png");
    assert_eq!(params.mime_type.as_deref(), Some("image/png"));
    assert_eq!((params.width, params.height), (None, None));
    assert_eq!(params.file_size, Some(5));

    let params = plan_upload("e".to_string(), "scan.tiff", "u-3", b"");
    assert_eq!(params.filename, "u-3_scan.tiff.tiff");
    assert_eq!(params.mime_type, None);
}

#[test]
fn missing_images_are_named() {
    assert_eq!(image_not_found("img-9").message(), "Image not found: img-9");
}
