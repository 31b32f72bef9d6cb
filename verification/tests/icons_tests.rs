use rbxmonet::icons::{hash_icon_file, icon_error_message, prepare_icon_bytes, IconError};

fn png(width: u32, height: u32) -> Vec<u8> {
    let img = image::DynamicImage::ImageRgba8(image::RgbaImage::new(width, height));
    let mut buf: Vec<u8> = Vec::new();
    img.write_to(&mut std::io::Cursor::new(&mut buf), image::ImageFormat::Png).unwrap();
    buf
}

#[test]
fn icon_hash_is_blake3_hex() {
    assert_eq!(
        hash_icon_file(&Some(Vec::new())).unwrap(),
        "af1349b9f5f9a1a6a0404dea36dcc9499bcb25c9adc112b7cc9a93cae41f3262"
    );
    let h = hash_icon_file(&Some(b"abc".to_vec())).unwrap();
    assert_eq!(h.len(), 64);
    assert!(h.chars().all(|c| c.is_ascii_digit() || ('a'..='f').contains(&c)));
    assert_ne!(h, hash_icon_file(&Some(b"abd".to_vec())).unwrap());
    assert!(hash_icon_file(&None).is_none());
}

#[test]
fn large_icon_is_resized() {
    let raw = png(600, 300);
    let p = prepare_icon_bytes("assets/icons/vip.png", &raw).unwrap();
    assert_eq!(p.file_name, "vip.png");
    assert_eq!(p.mime, "image/png");
    assert_eq!((p.width, p.height), (600, 300));
    assert!(p.resized);
    let back = image::load_from_memory(&p.bytes).unwrap();
    assert_eq!((back.width(), back.height()), (256, 256));
    assert_eq!(&p.bytes[16..24], &[0, 0, 1, 0, 0, 0, 1, 0]);
}

#[test]
fn small_icon_is_kept() {
    let raw = png(512, 40);
    let p = prepare_icon_bytes("first-win.jpeg", &raw).unwrap();
    assert_eq!(p.file_name, "first-win.png");
    assert!(!p.resized);
    let back = image::load_from_memory(&p.bytes).unwrap();
    assert_eq!((back.width(), back.height()), (512, 40));
    assert!(matches!(back, image::DynamicImage::ImageRgba8(_)));
}

#[test]
fn unreadable_icon_is_an_error() {
    let err = prepare_icon_bytes("x.png", &vec![1, 2, 3]).unwrap_err();
    assert!(err.starts_with("decode icon 'x.png': "));
    assert_eq!(
        icon_error_message("a.png", &IconError::Format("bad".to_string())),
        "guess icon format 'a.png': bad"
    );
    assert_eq!(
        icon_error_message("a.png", &IconError::Encode("full".to_string())),
        "encode icon 'a.png' as png: full"
    );
}
