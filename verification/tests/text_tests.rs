use mime_text::mime::{Error, MimeType};
use mime_text::text::Text;

fn decode(bytes: &[u8], mime_type: MimeType) -> Result<Text, Error> {
    Text::try_from(bytes.to_vec(), mime_type)
}

#[test]
fn valid_utf8_plain_text_has_no_cr() {
    let text = decode(b"x\ry\r\nz", MimeType::TextPlain).unwrap();
    assert_eq!(text.0, "x\ny\nz");
    assert!(!text.0.contains('\r'));
}

#[test]
fn text_plain_utf8_label_also_normalizes() {
    let text = decode(b"a\rb", MimeType::TextPlainUtf8).unwrap();
    assert_eq!(text.0, "a\nb");
}

#[test]
fn utf8_string_label_keeps_cr() {
    let text = decode(b"a\r\nb", MimeType::Utf8String).unwrap();
    assert_eq!(text.0, "a\r\nb");
}

#[test]
fn invalid_utf8_never_fails() {
    let text = decode(&[0x41, 0xFF, 0x42], MimeType::Utf8String).unwrap();
    assert_eq!(text.0, "A\u{FFFD}B");
}

#[test]
fn invalid_utf8_is_repaired_then_normalized() {
    let text = decode(&[0xFF, 0x0D, 0x0A, 0x61], MimeType::TextPlain).unwrap();
    assert_eq!(text.0, "\u{FFFD}\na");
}

#[test]
fn round_trip_after_normalization() {
    let once = decode(b"\r\n\r\ndata", MimeType::TextPlain).unwrap();
    assert_eq!(once.0, "\n\ndata");
    for label in Text::allowed() {
        let bytes = once.as_bytes(&label).unwrap();
        let again = Text::try_from(bytes, label).unwrap();
        assert_eq!(again.0, once.0);
    }
}

#[test]
fn unrecognized_label_fails_decode() {
    let err = decode(b"", MimeType::Other(String::from("application/x-thing"))).unwrap_err();
    assert_eq!(err, Error::Unsupported);
    let err = decode(b"payload", MimeType::Other(String::new())).unwrap_err();
    assert_eq!(err, Error::Unsupported);
}

#[test]
fn unrecognized_label_encodes_to_absent() {
    let text = decode(b"anything", MimeType::Utf8String).unwrap();
    assert!(text.as_bytes(&MimeType::Other(String::from("image/png"))).is_none());
    assert!(text.as_bytes(&MimeType::Other(String::new())).is_none());
}

#[test]
fn allowed_order_is_stable_and_available_matches() {
    let allowed = Text::allowed();
    assert_eq!(
        allowed,
        vec![MimeType::TextPlainUtf8, MimeType::Utf8String, MimeType::TextPlain]
    );
    let text = decode(b"hi", MimeType::Utf8String).unwrap();
    assert_eq!(text.available(), allowed);
}

#[test]
fn every_reported_label_decodes_and_encodes() {
    let text = decode(b"hi", MimeType::Utf8String).unwrap();
    for label in text.available() {
        assert!(text.as_bytes(&label).is_some());
        assert!(decode(b"hi", label).is_ok());
    }
}

#[test]
fn crlf_and_lone_cr_become_lf() {
    let text = decode(b"a\r\nb\rc\nd", MimeType::TextPlain).unwrap();
    assert_eq!(text.0, "a\nb\nc\nd");
    let bytes = text.as_bytes(&MimeType::Utf8String).unwrap();
    assert_eq!(bytes, b"a\nb\nc\nd".to_vec());
}

#[test]
fn raw_label_applies_no_normalization() {
    let text = decode(&[0x41, 0xFF, 0x42], MimeType::Utf8String).unwrap();
    assert_eq!(text.0, "A\u{FFFD}B");
    assert!(!text.0.contains('\r'));
}

#[test]
fn every_cr_not_before_lf_is_its_own_line_break() {
    let text = decode(b"\r\r\n", MimeType::TextPlain).unwrap();
    assert_eq!(text.0, "\n\n");
}

#[test]
fn empty_input_decodes_to_empty_text() {
    for label in Text::allowed() {
        let text = decode(b"", label).unwrap();
        assert_eq!(text.0, "");
    }
}

#[test]
fn all_recognized_labels_encode_identically() {
    let text = decode("caf\u{E9}\r\n".as_bytes(), MimeType::TextPlain).unwrap();
    assert_eq!(text.0, "caf\u{E9}\n");
    let expected = "caf\u{E9}\n".as_bytes().to_vec();
    assert_eq!(text.as_bytes(&MimeType::TextPlainUtf8).unwrap(), expected);
    assert_eq!(text.as_bytes(&MimeType::TextPlain).unwrap(), expected);
    assert_eq!(text.as_bytes(&MimeType::Utf8String).unwrap(), expected);
}

#[test]
fn multibyte_characters_survive_the_round_trip() {
    let bytes = vec![0xC3, 0xA9, 0x0A, 0xE2, 0x82, 0xAC];
    let text = Text::try_from(bytes.clone(), MimeType::Utf8String).unwrap();
    assert_eq!(text.0, "\u{E9}\n\u{20AC}");
    assert_eq!(text.as_bytes(&MimeType::Utf8String).unwrap(), bytes);
}
