use video_preview::text::same_text;

#[test]
fn same_text_compares_characters() {
    assert!(same_text("", ""));
    assert!(same_text("video", "video"));
    assert!(!same_text("video", "audio"));
    assert!(!same_text("video", "video "));
    assert!(!same_text("video", "vide"));
    assert!(!same_text("Video", "video"));
    assert!(same_text("tr\u{e8}s", "tr\u{e8}s"));
    assert!(!same_text("tr\u{e8}s", "tres"));
}
