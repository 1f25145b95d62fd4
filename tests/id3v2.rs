use audio_db_tags::id3v2::{extract_28bit_size, Frame, Id3v2};
use audio_db_tags::ParseError;

fn synchsafe(n: u32) -> [u8; 4] {
    [((n >> 21) & 0x7F) as u8, ((n >> 14) & 0x7F) as u8, ((n >> 7) & 0x7F) as u8, (n & 0x7F) as u8]
}

fn frame(id: &[u8; 4], flags2: u8, extra: &[u8], body: &[u8]) -> Vec<u8> {
    let mut b = id.to_vec();
    b.extend_from_slice(&((body.len() + extra.len()) as u32).to_be_bytes());
    b.push(0);
    b.push(flags2);
    b.extend_from_slice(extra);
    b.extend_from_slice(body);
    b
}

fn tag(flags: u8, frames: &[Vec<u8>]) -> Vec<u8> {
    let body: Vec<u8> = frames.concat();
    let mut b = b"ID3".to_vec();
    b.push(3);
    b.push(0);
    b.push(flags);
    b.extend_from_slice(&synchsafe(body.len() as u32));
    b.extend_from_slice(&body);
    b
}

#[test]
fn synchsafe_known_vector() {
    assert_eq!(extract_28bit_size(u32::from_be_bytes([0x00, 0x00, 0x02, 0x01])), 257);
}

#[test]
fn synchsafe_largest_and_masked() {
    assert_eq!(extract_28bit_size(0x7F7F_7F7F), 0x0FFF_FFFF);
    assert_eq!(extract_28bit_size(u32::from_be_bytes([0x01, 0x02, 0x03, 0x04])), (1 << 21) | (2 << 14) | (3 << 7) | 4);
    // Top bits are not part of the value.
    assert_eq!(extract_28bit_size(0x8080_8080), 0);
}

#[test]
fn text_frame_single_byte() {
    let bytes = tag(0, &[frame(b"TIT2", 0, &[], b"\x00Artist\x00")]);
    let t = Id3v2::from_bytes(&bytes).unwrap();
    assert_eq!(t.frames.len(), 1);
    match &t.frames[0] {
        Frame::TextField { id, text } => {
            assert_eq!(id, "TIT2");
            assert_eq!(text, "Artist");
        }
        other => panic!("unexpected frame {:?}", other),
    }
}

#[test]
fn text_frame_utf16_little_endian() {
    let bytes = tag(0, &[frame(b"TPE1", 0, &[], &[0x01, 0xFF, 0xFE, 0x41, 0x00, 0x00, 0x00])]);
    let t = Id3v2::from_bytes(&bytes).unwrap();
    match &t.frames[0] {
        Frame::TextField { id, text } => {
            assert_eq!(id, "TPE1");
            assert_eq!(text, "A");
        }
        other => panic!("unexpected frame {:?}", other),
    }
}

#[test]
fn text_frame_utf16_big_endian_non_ascii() {
    // U+00E9 and U+20AC after a big-endian mark.
    let bytes = tag(0, &[frame(b"TALB", 0, &[], &[0x01, 0xFE, 0xFF, 0x00, 0xE9, 0x20, 0xAC])]);
    let t = Id3v2::from_bytes(&bytes).unwrap();
    match &t.frames[0] {
        Frame::TextField { text, .. } => assert_eq!(text, "\u{e9}\u{20ac}"),
        other => panic!("unexpected frame {:?}", other),
    }
}

#[test]
fn frames_in_file_order() {
    let bytes = tag(
        0,
        &[
            frame(b"TIT2", 0, &[], b"\x00Song"),
            frame(b"TPE1", 0, &[], b"\x00Band"),
            frame(b"TXXX", 0, &[], b"\x00x"),
        ],
    );
    let t = Id3v2::from_bytes(&bytes).unwrap();
    let ids: Vec<&str> = t
        .frames
        .iter()
        .map(|f| match f {
            Frame::TextField { id, .. } => id.as_str(),
            _ => "",
        })
        .collect();
    assert_eq!(ids, vec!["TIT2", "TPE1", "TXXX"]);
}

#[test]
fn unknown_frame_id_fails() {
    let bytes = tag(0, &[frame(b"TIT2", 0, &[], b"\x00Song"), frame(b"XXXX", 0, &[], b"abc")]);
    assert_eq!(Id3v2::from_bytes(&bytes).unwrap_err(), ParseError::UnsupportedFrameId { id: *b"XXXX" });
}

#[test]
fn unsynchronisation_rejected() {
    let bytes = tag(0x80, &[frame(b"TIT2", 0, &[], b"\x00Song")]);
    assert_eq!(Id3v2::from_bytes(&bytes).unwrap_err(), ParseError::UnsynchronisationUnsupported);
    let garbage = tag(0x80, &[vec![0xFF; 16]]);
    assert_eq!(Id3v2::from_bytes(&garbage).unwrap_err(), ParseError::UnsynchronisationUnsupported);
}

#[test]
fn extended_header_rejected() {
    let bytes = tag(0x40, &[frame(b"TIT2", 0, &[], b"\x00Song")]);
    assert_eq!(Id3v2::from_bytes(&bytes).unwrap_err(), ParseError::ExtendedHeaderUnsupported);
}

#[test]
fn experimental_flag_accepted() {
    let bytes = tag(0x20, &[frame(b"TIT2", 0, &[], b"\x00Song")]);
    assert_eq!(Id3v2::from_bytes(&bytes).unwrap().frames.len(), 1);
}

#[test]
fn id3_bad_magic() {
    assert_eq!(Id3v2::from_bytes(b"ID4\x03\x00\x00\x00\x00\x00\x00").unwrap_err(), ParseError::BadMagic);
}

#[test]
fn id3_truncated_header() {
    assert_eq!(Id3v2::from_bytes(b"ID3\x03\x00").unwrap_err(), ParseError::UnexpectedEnd);
}

#[test]
fn empty_tag_has_no_frames() {
    let bytes = tag(0, &[]);
    assert_eq!(Id3v2::from_bytes(&bytes).unwrap().frames.len(), 0);
}

fn apic_body(encoding: u8, mime: &[u8], kind: u8, desc: &[u8], image: &[u8]) -> Vec<u8> {
    let mut b = vec![encoding];
    b.extend_from_slice(mime);
    b.push(0);
    b.push(kind);
    b.extend_from_slice(desc);
    b.push(0);
    b.extend_from_slice(image);
    b
}

#[test]
fn picture_frame_byte_accounting() {
    let body = apic_body(0, b"image/png", 3, b"front", &[9, 8, 7, 6]);
    // 1 + 10 + 1 + 6 bytes before the image.
    assert_eq!(body.len(), 18 + 4);
    let bytes = tag(0, &[frame(b"APIC", 0, &[], &body)]);
    let t = Id3v2::from_bytes(&bytes).unwrap();
    match &t.frames[0] {
        Frame::Picture { picture } => {
            assert_eq!(picture.encoding, 0);
            assert_eq!(picture.mime_type, "image/png");
            assert_eq!(picture.picture_type, 3);
            assert_eq!(picture.description, "front");
            assert_eq!(picture.picture, vec![9, 8, 7, 6]);
        }
        other => panic!("unexpected frame {:?}", other),
    }
}

#[test]
fn picture_frame_declared_size_below_strings() {
    let body = apic_body(0, b"image/png", 3, b"front", &[]);
    let mut f = frame(b"APIC", 0, &[], &body);
    // Declare 10 bytes where the strings alone take 18.
    f[4..8].copy_from_slice(&10u32.to_be_bytes());
    let mut bytes = tag(0, &[f]);
    bytes.extend_from_slice(&[0; 8]);
    assert_eq!(Id3v2::from_bytes(&bytes).unwrap_err(), ParseError::SizeUnderflow);
}

#[test]
fn picture_frame_declared_size_past_buffer() {
    let body = apic_body(0, b"image/png", 3, b"front", &[1, 2]);
    let mut f = frame(b"APIC", 0, &[], &body);
    f[4..8].copy_from_slice(&40u32.to_be_bytes());
    let bytes = tag(0, &[f]);
    assert_eq!(Id3v2::from_bytes(&bytes).unwrap_err(), ParseError::UnexpectedEnd);
}

#[test]
fn ufid_frame() {
    let mut body = b"http://example.org\x00".to_vec();
    body.extend_from_slice(&[0xDE, 0xAD, 0xBE, 0xEF]);
    let bytes = tag(0, &[frame(b"UFID", 0, &[], &body)]);
    let t = Id3v2::from_bytes(&bytes).unwrap();
    match &t.frames[0] {
        Frame::Ufid { ufid } => {
            assert_eq!(ufid.vendor, "http://example.org");
            assert_eq!(ufid.ufid, vec![0xDE, 0xAD, 0xBE, 0xEF]);
        }
        other => panic!("unexpected frame {:?}", other),
    }
}

#[test]
fn comment_frame() {
    let bytes = tag(0, &[frame(b"COMM", 0, &[], b"\x00engshort\x00the long text\x00")]);
    let t = Id3v2::from_bytes(&bytes).unwrap();
    match &t.frames[0] {
        Frame::Comment { comment } => {
            assert_eq!(comment.encoding, 0);
            assert_eq!(&comment.language, b"eng");
            assert_eq!(comment.description, "short");
            assert_eq!(comment.comment, "the long text");
        }
        other => panic!("unexpected frame {:?}", other),
    }
}

#[test]
fn comment_frame_utf16() {
    let body = [
        0x01, b'e', b'n', b'g', 0xFF, 0xFE, b'd', 0x00, 0x00, 0x00, 0xFF, 0xFE, b'h', 0x00, b'i', 0x00,
    ];
    let bytes = tag(0, &[frame(b"COMM", 0, &[], &body)]);
    let t = Id3v2::from_bytes(&bytes).unwrap();
    match &t.frames[0] {
        Frame::Comment { comment } => {
            assert_eq!(comment.description, "d");
            assert_eq!(comment.comment, "hi");
        }
        other => panic!("unexpected frame {:?}", other),
    }
}

#[test]
fn frame_header_extras_are_skipped() {
    // Compression (4 bytes), encryption (1) and grouping (1) follow the header
    // and count against the declared size.
    let bytes = tag(
        0,
        &[frame(b"TIT2", 0xE0, &[0, 0, 0, 9, 1, 2], b"\x00Song"), frame(b"TPE1", 0, &[], b"\x00Band")],
    );
    let t = Id3v2::from_bytes(&bytes).unwrap();
    assert_eq!(t.frames.len(), 2);
    match &t.frames[0] {
        Frame::TextField { text, .. } => assert_eq!(text, "Song"),
        other => panic!("unexpected frame {:?}", other),
    }
}

#[test]
fn frame_size_below_extras() {
    let mut f = frame(b"TIT2", 0x80, &[0, 0, 0, 9], b"");
    f[4..8].copy_from_slice(&2u32.to_be_bytes());
    let bytes = tag(0, &[f]);
    assert_eq!(Id3v2::from_bytes(&bytes).unwrap_err(), ParseError::SizeUnderflow);
}

#[test]
fn text_frame_bad_encoding_byte() {
    let bytes = tag(0, &[frame(b"TIT2", 0, &[], b"\x02Song")]);
    assert_eq!(Id3v2::from_bytes(&bytes).unwrap_err(), ParseError::InvalidTextEncoding { encoding: 2 });
}

#[test]
fn text_frame_invalid_utf8() {
    let bytes = tag(0, &[frame(b"TIT2", 0, &[], &[0x00, 0xFF, 0x41])]);
    assert_eq!(Id3v2::from_bytes(&bytes).unwrap_err(), ParseError::InvalidText);
}

#[test]
fn text_frame_lone_surrogate_is_invalid() {
    let bytes = tag(0, &[frame(b"TIT2", 0, &[], &[0x01, 0xFF, 0xFE, 0x00, 0xD8, 0x00, 0x00])]);
    assert_eq!(Id3v2::from_bytes(&bytes).unwrap_err(), ParseError::InvalidText);
}

#[test]
fn empty_text_frame_size_underflow() {
    let bytes = tag(0, &[frame(b"TIT2", 0, &[], b"\x00")]);
    let mut short = bytes.clone();
    // Declare the frame body as zero bytes long.
    short[14..18].copy_from_slice(&0u32.to_be_bytes());
    assert_eq!(Id3v2::from_bytes(&short).unwrap_err(), ParseError::SizeUnderflow);
}

#[test]
fn text_frame_utf16_surrogate_pair() {
    let bytes = tag(0, &[frame(b"TIT2", 0, &[], &[0x01, 0xFF, 0xFE, 0x3D, 0xD8, 0x00, 0xDE])]);
    let t = Id3v2::from_bytes(&bytes).unwrap();
    match &t.frames[0] {
        Frame::TextField { id, text } => {
            assert_eq!(id, "TIT2");
            assert_eq!(text, "\u{1F600}");
        }
        other => panic!("unexpected frame {:?}", other),
    }
}

#[test]
fn picture_frame_then_next_frame() {
    // The helper adds the description's last terminator byte.
    let body = apic_body(1, b"image/jpeg", 0, &[0xFF, 0xFE, b'x', 0x00, 0x00], &[5, 5, 5]);
    let bytes = tag(0, &[frame(b"APIC", 0, &[], &body), frame(b"TIT2", 0, &[], b"\x00After")]);
    let t = Id3v2::from_bytes(&bytes).unwrap();
    assert_eq!(t.frames.len(), 2);
    match &t.frames[0] {
        Frame::Picture { picture } => {
            assert_eq!(picture.mime_type, "image/jpeg");
            assert_eq!(picture.description, "x");
            assert_eq!(picture.picture, vec![5, 5, 5]);
        }
        other => panic!("unexpected frame {:?}", other),
    }
    match &t.frames[1] {
        Frame::TextField { text, .. } => assert_eq!(text, "After"),
        other => panic!("unexpected frame {:?}", other),
    }
}
