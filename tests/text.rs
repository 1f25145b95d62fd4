use audio_db_tags::text::{read_text, trim_trailing_zeros, BufferKind, CountThenVec};
use audio_db_tags::ParseError;

#[test]
fn single_byte_nul_terminated() {
    let data = b"Artist\0rest";
    let (s, end) = read_text(data, 0, BufferKind::NullTerminated, 0).unwrap();
    assert_eq!(s, "Artist");
    assert_eq!(end, 7);
}

#[test]
fn single_byte_sized_trims_trailing_nuls() {
    let data = b"Artist\0\0\0";
    let (s, end) = read_text(data, 0, BufferKind::Sized(9), 0).unwrap();
    assert_eq!(s, "Artist");
    assert_eq!(end, 9);
}

#[test]
fn utf16_nul_terminated_little_endian() {
    let data = [0xFF, 0xFE, 0x41, 0x00, 0x00, 0x00];
    let (s, end) = read_text(&data, 0, BufferKind::NullTerminated, 1).unwrap();
    assert_eq!(s, "A");
    assert_eq!(end, 6);
}

#[test]
fn utf16_sized_big_endian() {
    let data = [0xFE, 0xFF, 0x00, 0x48, 0x00, 0x69];
    let (s, end) = read_text(&data, 0, BufferKind::Sized(6), 1).unwrap();
    assert_eq!(s, "Hi");
    assert_eq!(end, 6);
}

#[test]
fn utf16_three_byte_form() {
    let data = [0xFF, 0xFE, 0xAC, 0x20, 0x00, 0x00];
    let (s, _) = read_text(&data, 0, BufferKind::NullTerminated, 1).unwrap();
    assert_eq!(s, "\u{20ac}");
    assert_eq!(s.as_bytes(), &[0xE2, 0x82, 0xAC]);
}

#[test]
fn utf16_sized_too_small_for_mark() {
    let data = [0xFF, 0xFE];
    assert_eq!(read_text(&data, 0, BufferKind::Sized(1), 1).unwrap_err(), ParseError::SizeUnderflow);
}

#[test]
fn nul_terminator_missing() {
    assert_eq!(read_text(b"abc", 0, BufferKind::NullTerminated, 0).unwrap_err(), ParseError::UnexpectedEnd);
}

#[test]
fn unknown_encoding_byte() {
    assert_eq!(
        read_text(b"abc\0", 0, BufferKind::NullTerminated, 3).unwrap_err(),
        ParseError::InvalidTextEncoding { encoding: 3 }
    );
}

#[test]
fn ucs2_adjusted_counts_units() {
    assert_eq!(BufferKind::Sized(8).ucs2_adjusted(), Some(BufferKind::Sized(3)));
    assert_eq!(BufferKind::Sized(1).ucs2_adjusted(), None);
    assert_eq!(BufferKind::NullTerminated.ucs2_adjusted(), Some(BufferKind::NullTerminated));
}

#[test]
fn trim_trailing_zeros_only_at_end() {
    let mut v = vec![0, 1, 0, 2, 0, 0];
    trim_trailing_zeros(&mut v);
    assert_eq!(v, vec![0, 1, 0, 2]);
}

#[test]
fn count_then_vec_map_str() {
    let data = [0x00, 0x00, 0x00, 0x02, 0xC3, 0xA9, 0xFF];
    let (c, end) = CountThenVec::read(&data, 0, false).unwrap();
    assert_eq!(end, 6);
    assert_eq!(c.count, 2);
    assert_eq!(c.map_str().unwrap(), "\u{e9}");
    let bad = [0x01, 0x00, 0x00, 0x00, 0xFF];
    let (c, _) = CountThenVec::read(&bad, 0, true).unwrap();
    assert_eq!(c.map_str().unwrap_err(), ParseError::InvalidText);
}

#[test]
fn utf16_surrogate_pair() {
    let data = [0xFF, 0xFE, 0x3D, 0xD8, 0x00, 0xDE];
    let (s, end) = read_text(&data, 0, BufferKind::Sized(6), 1).unwrap();
    assert_eq!(s, "\u{1F600}");
    assert_eq!(s.chars().count(), 1);
    assert_eq!(end, 6);
}

#[test]
fn utf16_surrogate_pair_big_endian_nul_terminated() {
    let data = [0xFE, 0xFF, 0xD8, 0x3D, 0xDE, 0x00, 0x00, 0x00];
    let (s, end) = read_text(&data, 0, BufferKind::NullTerminated, 1).unwrap();
    assert_eq!(s, "\u{1F600}");
    assert_eq!(end, 8);
}

#[test]
fn utf16_lone_low_surrogate_is_invalid() {
    let data = [0xFF, 0xFE, 0x00, 0xDE, 0x41, 0x00];
    assert_eq!(read_text(&data, 0, BufferKind::Sized(6), 1).unwrap_err(), ParseError::InvalidText);
}
