use hito_core::media::{encode_data_url, is_image_extension, mime_type_for_extension};
use hito_core::text::parse_u64_str;

#[test]
fn test_mime_type_table() {
    let extensions = vec![
        ("jpg", "image/jpeg"),
        ("jpeg", "image/jpeg"),
        ("png", "image/png"),
        ("gif", "image/gif"),
        ("bmp", "image/bmp"),
        ("webp", "image/webp"),
        ("svg", "image/svg+xml"),
        ("ico", "image/x-icon"),
    ];
    for (ext, expected_mime) in extensions {
        assert_eq!(mime_type_for_extension(ext), expected_mime, "Failed for extension: {}", ext);
    }
}

#[test]
fn test_mime_type_unknown_defaults_to_png() {
    assert_eq!(mime_type_for_extension("tiff"), "image/png");
    assert_eq!(mime_type_for_extension(""), "image/png");
}

#[test]
fn test_mime_type_ignores_ascii_case() {
    assert_eq!(mime_type_for_extension("JPG"), "image/jpeg");
    assert_eq!(mime_type_for_extension("Png"), "image/png");
}

#[test]
fn test_is_image_extension_allow_list() {
    assert!(is_image_extension("jpg"));
    assert!(is_image_extension("JPEG"));
    assert!(is_image_extension("webp"));
    assert!(!is_image_extension("txt"));
    assert!(!is_image_extension(""));
    assert!(!is_image_extension("jpgx"));
}

#[test]
fn test_encode_data_url_exact() {
    let bytes: Vec<u8> = vec![1, 2, 3];
    assert_eq!(encode_data_url("image/png", &bytes), "data:image/png;base64,AQID");

    let hello: Vec<u8> = b"hello".to_vec();
    assert_eq!(encode_data_url("image/jpeg", &hello), "data:image/jpeg;base64,aGVsbG8=");
}

#[test]
fn test_encode_data_url_empty() {
    let bytes: Vec<u8> = Vec::new();
    assert_eq!(encode_data_url("image/png", &bytes), "data:image/png;base64,");
}

#[test]
fn test_parse_u64_str_accepts_decimal() {
    assert_eq!(parse_u64_str("0"), Some(0));
    assert_eq!(parse_u64_str("42"), Some(42));
    assert_eq!(parse_u64_str("+5"), Some(5));
    assert_eq!(parse_u64_str("18446744073709551615"), Some(u64::MAX));
}

#[test]
fn test_parse_u64_str_rejects_junk() {
    assert_eq!(parse_u64_str(""), None);
    assert_eq!(parse_u64_str("+"), None);
    assert_eq!(parse_u64_str("12x"), None);
    assert_eq!(parse_u64_str("-3"), None);
    assert_eq!(parse_u64_str("1 2"), None);
    assert_eq!(parse_u64_str("18446744073709551616"), None);
}

#[test]
fn test_parse_u64_str_matches_std() {
    for s in ["0", "7", "+19", "007", "99999999", "", "+", "abc", "4294967296"] {
        assert_eq!(parse_u64_str(s), s.parse::<u64>().ok(), "Mismatch for {:?}", s);
    }
}
