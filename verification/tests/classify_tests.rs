use media_gallery::classify::{
    MediaClass, classify, is_media_file_name, is_supported_image, is_supported_media,
    is_supported_video, is_video_file_name, media_class_of_file,
};

#[test]
fn image_extensions_recognized() {
    assert!(is_supported_image("jpg"));
    assert!(is_supported_image("jpeg"));
    assert!(is_supported_image("png"));
    assert!(is_supported_image("gif"));
    assert!(is_supported_image("webp"));
    assert!(!is_supported_image("mp4"));
    assert!(!is_supported_image("txt"));
    assert!(!is_supported_image(""));
}

#[test]
fn video_extensions_recognized() {
    assert!(is_supported_video("mp4"));
    assert!(is_supported_video("webm"));
    assert!(is_supported_video("ogg"));
    assert!(is_supported_video("mov"));
    assert!(!is_supported_video("jpg"));
    assert!(!is_supported_video("avi"));
}

#[test]
fn extension_match_is_case_insensitive() {
    assert!(is_supported_image("JPG"));
    assert!(is_supported_image("Jpeg"));
    assert!(is_supported_image("PNG"));
    assert!(is_supported_video("MOV"));
    assert!(is_supported_video("WebM"));
}

#[test]
fn video_gated_by_flag() {
    assert!(is_supported_media("mp4", true));
    assert!(!is_supported_media("mp4", false));
    assert!(is_supported_media("jpg", false));
    assert!(is_supported_media("jpg", true));
}

#[test]
fn classify_maps_to_three_classes() {
    assert_eq!(classify("jpg", false), MediaClass::Image);
    assert_eq!(classify("GIF", true), MediaClass::Image);
    assert_eq!(classify("mp4", true), MediaClass::Video);
    assert_eq!(classify("mp4", false), MediaClass::Unsupported);
    assert_eq!(classify("pdf", true), MediaClass::Unsupported);
    assert_eq!(classify("", true), MediaClass::Unsupported);
}

#[test]
fn file_names_classified_by_last_extension() {
    assert_eq!(media_class_of_file("photo.JPEG", false), MediaClass::Image);
    assert_eq!(media_class_of_file("clip.mov", true), MediaClass::Video);
    assert_eq!(media_class_of_file("clip.mov", false), MediaClass::Unsupported);
    assert_eq!(media_class_of_file("archive.tar.gz", true), MediaClass::Unsupported);
    assert_eq!(media_class_of_file("a.b.png", false), MediaClass::Image);
    assert_eq!(media_class_of_file("README", true), MediaClass::Unsupported);
}

#[test]
fn leading_dot_is_not_an_extension() {
    assert_eq!(media_class_of_file(".gitignore", true), MediaClass::Unsupported);
    assert_eq!(media_class_of_file(".png", true), MediaClass::Unsupported);
    assert_eq!(media_class_of_file("a.png", true), MediaClass::Image);
    assert_eq!(media_class_of_file("trailing.", true), MediaClass::Unsupported);
}

#[test]
fn media_file_name_respects_flag() {
    assert!(is_media_file_name("x.jpg", false));
    assert!(is_media_file_name("x.webm", true));
    assert!(!is_media_file_name("x.webm", false));
    assert!(!is_media_file_name("x.doc", true));
    assert!(is_video_file_name("x.OGG"));
    assert!(!is_video_file_name("x.png"));
}
