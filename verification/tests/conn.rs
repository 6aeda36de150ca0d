use octoterm::conn::trim_by_watermark;

#[test]
fn fully_covered_message_returns_none_and_leaves_watermark() {
    let mut watermark = 100u64;
    let bytes = b"hello".to_vec(); // covers [95, 100)
    let out = trim_by_watermark(&mut watermark, 100, &bytes);
    assert_eq!(out, None);
    assert_eq!(watermark, 100);
}

#[test]
fn partially_covered_message_trims_prefix_and_advances_watermark() {
    let mut watermark = 3u64;
    let bytes = b"abcde".to_vec();
    let out = trim_by_watermark(&mut watermark, 5, &bytes);
    assert_eq!(out, Some(b"de".to_vec()));
    assert_eq!(watermark, 5);
}

#[test]
fn fully_new_message_passes_through_whole_and_advances_watermark() {
    let mut watermark = 0u64;
    let bytes = b"xyz".to_vec();
    let out = trim_by_watermark(&mut watermark, 3, &bytes);
    assert_eq!(out, Some(b"xyz".to_vec()));
    assert_eq!(watermark, 3);
}
