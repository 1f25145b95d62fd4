use audio_db_tags::flac::{Flac, Metadata, PictureKind, StreamInfo};
use audio_db_tags::ParseError;

fn stream_info_body(si: &StreamInfo) -> Vec<u8> {
    let mut b = Vec::new();
    b.extend_from_slice(&si.min_block_size.to_be_bytes());
    b.extend_from_slice(&si.max_block_size.to_be_bytes());
    b.extend_from_slice(&si.min_frame_size.to_be_bytes()[1..]);
    b.extend_from_slice(&si.max_frame_size.to_be_bytes()[1..]);
    let packed: u64 = ((si.sample_rate as u64) << 44)
        | ((si.channels as u64) << 41)
        | ((si.bits_per_sample as u64) << 36)
        | si.total_samples;
    b.extend_from_slice(&packed.to_be_bytes());
    b.extend_from_slice(&si.md5_signature.to_be_bytes());
    b
}

fn block(last: bool, block_type: u8, body: &[u8]) -> Vec<u8> {
    let mut b = vec![if last { 0x80 | block_type } else { block_type }];
    b.extend_from_slice(&(body.len() as u32).to_be_bytes()[1..]);
    b.extend_from_slice(body);
    b
}

fn stream(blocks: &[Vec<u8>]) -> Vec<u8> {
    let mut b = b"fLaC".to_vec();
    for x in blocks {
        b.extend_from_slice(x);
    }
    b
}

fn sample_info() -> StreamInfo {
    StreamInfo {
        min_block_size: 4096,
        max_block_size: 4608,
        min_frame_size: 0x0000_1234,
        max_frame_size: 0x00AB_CDEF,
        sample_rate: 44100,
        channels: 1,
        bits_per_sample: 15,
        total_samples: 0x9_8765_4321,
        md5_signature: 0x0011_2233_4455_6677_8899_AABB_CCDD_EEFF,
    }
}

#[test]
fn minimal_flac_round_trip() {
    let si = sample_info();
    let bytes = stream(&[block(true, 0, &stream_info_body(&si))]);
    assert_eq!(bytes.len(), 42);
    let flac = Flac::from_bytes(&bytes).unwrap();
    assert_eq!(flac.metadata.len(), 1);
    match &flac.metadata[0] {
        Metadata::StreamInfo(got) => assert_eq!(*got, si),
        other => panic!("unexpected block {:?}", other),
    }
}

#[test]
fn stream_info_packed_fields() {
    let si = sample_info();
    let body = stream_info_body(&si);
    // 44100 = 0xAC44: the top 20 bits of the packed field.
    assert_eq!(&body[10..13], &[0x0A, 0xC4, 0x42]);
    let (got, end) = StreamInfo::read(&body, 0).unwrap();
    assert_eq!(end, 34);
    assert_eq!(got.sample_rate, 44100);
    assert_eq!(got.channels, 1);
    assert_eq!(got.bits_per_sample, 15);
    assert_eq!(got.total_samples, 0x9_8765_4321);
    assert_eq!(got.max_frame_size, 0xAB_CDEF);
}

#[test]
fn blocks_stop_at_last_flag_in_file_order() {
    let si = sample_info();
    let mut seek = Vec::new();
    seek.extend_from_slice(&7u64.to_be_bytes());
    seek.extend_from_slice(&1000u64.to_be_bytes());
    seek.extend_from_slice(&4096u16.to_be_bytes());
    let mut bytes = stream(&[
        block(false, 1, &[0, 0, 0]),
        block(false, 3, &seek),
        block(true, 0, &stream_info_body(&si)),
    ]);
    // Whatever follows the flagged block is audio data and is not read.
    bytes.extend_from_slice(&[0xFF, 0xF8, 0x01]);
    let flac = Flac::from_bytes(&bytes).unwrap();
    assert_eq!(flac.metadata.len(), 3);
    match &flac.metadata[0] {
        Metadata::Padding { padding } => assert_eq!(padding, &vec![0u8, 0, 0]),
        other => panic!("unexpected block {:?}", other),
    }
    match &flac.metadata[1] {
        Metadata::SeekTable { seekpoints } => {
            assert_eq!(seekpoints.len(), 1);
            assert_eq!(seekpoints[0].first_sample, 7);
            assert_eq!(seekpoints[0].offset, 1000);
            assert_eq!(seekpoints[0].samples, 4096);
        }
        other => panic!("unexpected block {:?}", other),
    }
    assert!(matches!(flac.metadata[2], Metadata::StreamInfo(_)));
}

#[test]
fn single_block_flagged_first_ends_document() {
    let bytes = stream(&[block(true, 1, &[0, 0]), block(true, 1, &[0])]);
    let flac = Flac::from_bytes(&bytes).unwrap();
    assert_eq!(flac.metadata.len(), 1);
}

#[test]
fn missing_last_flag_runs_off_the_end() {
    let bytes = stream(&[block(false, 1, &[0, 0])]);
    assert_eq!(Flac::from_bytes(&bytes).unwrap_err(), ParseError::UnexpectedEnd);
}

fn vorbis_body(vendor: &[u8], comments: &[&[u8]]) -> Vec<u8> {
    let mut b = Vec::new();
    b.extend_from_slice(&(vendor.len() as u32).to_le_bytes());
    b.extend_from_slice(vendor);
    b.extend_from_slice(&(comments.len() as u32).to_le_bytes());
    for c in comments {
        b.extend_from_slice(&(c.len() as u32).to_le_bytes());
        b.extend_from_slice(c);
    }
    b
}

#[test]
fn vorbis_comment_little_endian_counts() {
    let body = vorbis_body(b"hello", &[b"ARTIST=Someone", b"TITLE=Song"]);
    assert_eq!(&body[0..4], &[0x05, 0x00, 0x00, 0x00]);
    let bytes = stream(&[block(true, 4, &body)]);
    let flac = Flac::from_bytes(&bytes).unwrap();
    match &flac.metadata[0] {
        Metadata::VorbisComment(v) => {
            assert_eq!(v.vendor, "hello");
            assert_eq!(v.vendor.chars().count(), 5);
            assert_eq!(v.comments.len(), 2);
            assert_eq!(v.comments[0].comment, "ARTIST=Someone");
            assert_eq!(v.comments[1].comment, "TITLE=Song");
        }
        other => panic!("unexpected block {:?}", other),
    }
}

#[test]
fn vorbis_comment_invalid_utf8() {
    let body = vorbis_body(&[0xC3, 0x28], &[]);
    let bytes = stream(&[block(true, 4, &body)]);
    assert_eq!(Flac::from_bytes(&bytes).unwrap_err(), ParseError::InvalidText);
}

fn picture_body(kind: u32, mime: &[u8], desc: &[u8], data: &[u8]) -> Vec<u8> {
    let mut b = Vec::new();
    b.extend_from_slice(&kind.to_be_bytes());
    b.extend_from_slice(&(mime.len() as u32).to_be_bytes());
    b.extend_from_slice(mime);
    b.extend_from_slice(&(desc.len() as u32).to_be_bytes());
    b.extend_from_slice(desc);
    for v in [300u32, 200, 24, 0] {
        b.extend_from_slice(&v.to_be_bytes());
    }
    b.extend_from_slice(&(data.len() as u32).to_be_bytes());
    b.extend_from_slice(data);
    b
}

#[test]
fn picture_block() {
    let body = picture_body(3, b"image/png", b"cover", &[1, 2, 3]);
    let bytes = stream(&[block(true, 6, &body)]);
    let flac = Flac::from_bytes(&bytes).unwrap();
    match &flac.metadata[0] {
        Metadata::Picture(p) => {
            assert_eq!(p.kind, PictureKind::FrontCover);
            assert_eq!(p.mime_type, "image/png");
            assert_eq!(p.description, "cover");
            assert_eq!((p.width, p.height, p.depth, p.colours), (300, 200, 24, 0));
            assert_eq!(p.data, vec![1, 2, 3]);
        }
        other => panic!("unexpected block {:?}", other),
    }
}

#[test]
fn picture_kind_out_of_range() {
    let body = picture_body(21, b"image/png", b"", &[]);
    let bytes = stream(&[block(true, 6, &body)]);
    assert_eq!(Flac::from_bytes(&bytes).unwrap_err(), ParseError::InvalidPictureKind { kind: 21 });
}

#[test]
fn unsupported_block_type() {
    let bytes = stream(&[block(true, 2, &[0, 0])]);
    assert_eq!(Flac::from_bytes(&bytes).unwrap_err(), ParseError::UnsupportedBlockType { block_type: 2 });
}

#[test]
fn flac_bad_magic() {
    assert_eq!(Flac::from_bytes(b"OggS\x80\x00\x00\x00").unwrap_err(), ParseError::BadMagic);
}

#[test]
fn flac_too_short_for_magic() {
    assert_eq!(Flac::from_bytes(b"fLa").unwrap_err(), ParseError::UnexpectedEnd);
}

#[test]
fn truncated_stream_info() {
    let si = sample_info();
    let mut bytes = stream(&[block(true, 0, &stream_info_body(&si))]);
    bytes.truncate(30);
    assert_eq!(Flac::from_bytes(&bytes).unwrap_err(), ParseError::UnexpectedEnd);
}

#[test]
fn trailing_bytes_do_not_change_result() {
    let si = sample_info();
    let blocks = stream(&[block(false, 1, &[0]), block(true, 0, &stream_info_body(&si))]);
    let mut a = blocks.clone();
    a.extend_from_slice(&[0x00, 0x01, 0x02]);
    let mut b = blocks.clone();
    b.extend_from_slice(&[0xFF; 40]);
    let fa = Flac::from_bytes(&a).unwrap();
    let fb = Flac::from_bytes(&b).unwrap();
    let fs = Flac::from_bytes(&blocks).unwrap();
    assert_eq!(format!("{:?}", fa), format!("{:?}", fs));
    assert_eq!(format!("{:?}", fb), format!("{:?}", fs));
}
