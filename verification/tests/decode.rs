use dict_walker::decode::decode_transcript;
use dict_walker::decode::decode_utf16_be;
use dict_walker::decode::decode_utf16_le;
use dict_walker::decode::decode_windows_1257;

#[test]
fn utf8_is_read_as_it_is() {
    assert_eq!(decode_transcript("hello".as_bytes()), Ok(String::from("hello")));
    assert_eq!(decode_transcript("žąsis".as_bytes()), Ok(String::from("žąsis")));
    assert_eq!(decode_transcript(&[]), Ok(String::new()));
}

#[test]
fn utf8_byte_order_mark_stays_in_the_text() {
    assert_eq!(decode_transcript(&[0xEF, 0xBB, 0xBF, 0x61]), Ok(String::from("\u{feff}a")));
}

#[test]
fn utf16_le_behind_its_mark_is_decoded() {
    let bytes = [0xFF, 0xFE, 0x68, 0x00, 0x69, 0x00, 0x7E, 0x01];
    assert_eq!(decode_transcript(&bytes), Ok(String::from("hiž")));
}

#[test]
fn utf16_be_behind_its_mark_is_decoded() {
    let bytes = [0xFE, 0xFF, 0x00, 0x68, 0x00, 0x69, 0x01, 0x7E];
    assert_eq!(decode_transcript(&bytes), Ok(String::from("hiž")));
}

#[test]
fn utf16_surrogate_pairs_are_decoded() {
    let bytes = [0xFF, 0xFE, 0x3D, 0xD8, 0x00, 0xDE];
    assert_eq!(decode_transcript(&bytes), Ok(String::from("\u{1F600}")));
}

#[test]
fn bytes_without_mark_fall_back_to_windows_1257() {
    // "ačiū" in Windows-1257
    let bytes = [0x61, 0xE8, 0x69, 0xFB];
    assert_eq!(decode_transcript(&bytes), Ok(String::from("ačiū")));
}

#[test]
fn broken_utf16_falls_back_to_windows_1257_over_all_bytes() {
    // an odd number of bytes behind the mark is no UTF-16
    let bytes = [0xFF, 0xFE, 0x41];
    assert_eq!(decode_transcript(&bytes), Ok(String::from("\u{2d9}žA")));
    let bytes = [0xFE, 0xFF, 0x41];
    assert_eq!(decode_transcript(&bytes), Ok(String::from("ž\u{2d9}A")));
}

#[test]
fn bytes_that_no_codec_holds_are_an_error() {
    let bytes = [0x61, 0xA1];
    assert_eq!(
        decode_transcript(&bytes),
        Err(String::from("Failed to read bytes as Windows 1257: \"invalid sequence\""))
    );
}

#[test]
fn the_single_codecs_name_themselves_in_their_errors() {
    assert_eq!(decode_windows_1257(&[0x41, 0xFE]), Ok(String::from("Až")));
    assert_eq!(
        decode_windows_1257(&[0xA1]),
        Err(String::from("Failed to read bytes as Windows 1257: \"invalid sequence\""))
    );
    assert_eq!(decode_utf16_le(&[0x41, 0x00]), Ok(String::from("A")));
    assert_eq!(decode_utf16_be(&[0x00, 0x41]), Ok(String::from("A")));
    let le = decode_utf16_le(&[0x41]).unwrap_err();
    assert!(le.starts_with("Failed to read bytes as UTF_16LE: \""));
    assert!(le.ends_with("\""));
    let be = decode_utf16_be(&[0xD8, 0x00]).unwrap_err();
    assert!(be.starts_with("Failed to read bytes as UTF_16BE: \""));
}

#[test]
fn the_two_utf16_codecs_differ_in_byte_order() {
    assert_eq!(decode_utf16_le(&[0x7E, 0x01]), Ok(String::from("ž")));
    assert_eq!(decode_utf16_be(&[0x7E, 0x01]), Ok(String::from("\u{7e01}")));
}
