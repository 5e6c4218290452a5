use rex::signature::{classify_window, count_text_bytes, detect_signature, text_byte};

const PNG_MAGIC: [u8; 8] = [0x89, 0x50, 0x4E, 0x47, 0x0D, 0x0A, 0x1A, 0x0A];

fn png_block(len: usize) -> Vec<u8> {
    let mut block = vec![0u8; len];
    block[..8].copy_from_slice(&PNG_MAGIC);
    block
}

#[test]
fn empty_slice_is_no_match() {
    assert_eq!(detect_signature(&[]), None);
}

#[test]
fn short_slices_are_no_match() {
    for len in 0..33usize {
        let text = vec![b'a'; len];
        assert_eq!(detect_signature(&text), None, "text of {} bytes", len);
        if len >= 8 {
            assert_eq!(detect_signature(&png_block(len)), None, "png of {} bytes", len);
        }
    }
}

#[test]
fn png_magic_is_detected() {
    assert_eq!(detect_signature(&png_block(33)), Some("png"));
    assert_eq!(detect_signature(&png_block(8192)), Some("png"));
}

#[test]
fn jpeg_magic_is_detected() {
    let mut block = vec![0u8; 64];
    block[..4].copy_from_slice(&[0xFF, 0xD8, 0xFF, 0xAA]);
    assert_eq!(detect_signature(&block), Some("jpg"));
}

#[test]
fn printable_text_is_text() {
    let text = vec![b'x'; 33];
    assert_eq!(detect_signature(&text), Some("txt"));
    let mixed: Vec<u8> = (0..100u32).map(|i| if i % 2 == 0 { b'\t' } else { b'~' }).collect();
    assert_eq!(detect_signature(&mixed), Some("txt"));
}

#[test]
fn zeros_are_no_match() {
    assert_eq!(detect_signature(&vec![0u8; 33]), None);
    assert_eq!(detect_signature(&vec![0u8; 8192]), None);
}

#[test]
fn text_threshold_is_strict() {
    // 100 bytes starting with 'z': 90 text bytes are not enough, 91 are.
    let mut at = vec![b'z'; 90];
    at.extend_from_slice(&[0u8; 10]);
    assert_eq!(detect_signature(&at), None);
    let mut above = vec![b'z'; 91];
    above.extend_from_slice(&[0u8; 9]);
    assert_eq!(detect_signature(&above), Some("txt"));
}

#[test]
fn text_threshold_is_a_fraction_not_a_percentage() {
    // 181 of 200 is more than nine tenths although it rounds down to 90 percent.
    let mut buf = vec![b'q'; 181];
    buf.extend_from_slice(&[0u8; 19]);
    assert_eq!(detect_signature(&buf), Some("txt"));
    let mut buf = vec![b'q'; 180];
    buf.extend_from_slice(&[0u8; 20]);
    assert_eq!(detect_signature(&buf), None);
}

#[test]
fn catalogue_wins_over_text() {
    let mut page = b"<html><body>".to_vec();
    page.extend_from_slice(&[b' '; 40]);
    assert_eq!(detect_signature(&page), Some("html"));
}

#[test]
fn classify_window_follows_the_catalogue_answer() {
    let text = vec![b'a'; 40];
    assert_eq!(classify_window(None, &text), Some("txt"));
    assert_eq!(classify_window(Some("png"), &text), Some("png"));
    assert_eq!(classify_window(Some("png"), &text[..32]), None);
    assert_eq!(classify_window(None, &vec![0u8; 40]), None);
}

#[test]
fn text_bytes_are_counted() {
    assert!(text_byte(0x09) && text_byte(0x0A) && text_byte(0x0D));
    assert!(text_byte(0x20) && text_byte(0x7E));
    assert!(!text_byte(0x00) && !text_byte(0x1F) && !text_byte(0x7F) && !text_byte(0x0B));
    assert_eq!(count_text_bytes(b"ab\x00c\x7f\n"), 4);
    assert_eq!(count_text_bytes(b""), 0);
}
