//! FLAC metadata: the `fLaC` magic, then metadata blocks up to the one whose
//! header carries the last-block flag.
use vstd::prelude::*;

use crate::bytes::{
    be128, be16, be24, be32, be64, field, le32, fits, outcome, read_bytes, read_u128_be, read_u16_be,
    read_u24_be, read_u32, read_u64_be, read_u8, sp_bytes, sp_u32,
};
use crate::text::{lemma_len_string_advances, sp_len_bytes, sp_len_string, CountThenVec};
use crate::error::ParseError;
use vstd::utf8::{decode_utf8, valid_utf8};

verus! {

/// The STREAMINFO block.
#[derive(Clone, Copy, Debug, PartialEq, Eq)]
pub struct StreamInfo {
    pub min_block_size: u16,
    pub max_block_size: u16,
    /// 24 bits.
    pub min_frame_size: u32,
    /// 24 bits.
    pub max_frame_size: u32,
    /// 20 bits.
    pub sample_rate: u32,
    /// 3 bits: the channel count less one.
    pub channels: u8,
    /// 5 bits: the bits per sample less one.
    pub bits_per_sample: u8,
    /// 36 bits.
    pub total_samples: u64,
    pub md5_signature: u128,
}

impl View for StreamInfo {
    type V = StreamInfo;

    open spec fn view(&self) -> StreamInfo {
        *self
    }
}

/// One entry of a SEEKTABLE block.
#[derive(Clone, Copy, Debug, PartialEq, Eq)]
pub struct SeekPoint {
    pub first_sample: u64,
    pub offset: u64,
    pub samples: u16,
}

impl View for SeekPoint {
    type V = SeekPoint;

    open spec fn view(&self) -> SeekPoint {
        *self
    }
}

/// One `KEY=value` entry of a VORBIS_COMMENT block.
#[derive(Debug)]
pub struct UserComment {
    pub comment: String,
}

impl View for UserComment {
    type V = Seq<char>;

    open spec fn view(&self) -> Seq<char> {
        self.comment@
    }
}

pub open spec fn comments_view(c: Seq<UserComment>) -> Seq<Seq<char>> {
    c.map_values(|u: UserComment| u@)
}

/// A VORBIS_COMMENT block.
#[derive(Debug)]
pub struct VorbisComment {
    pub vendor: String,
    pub comments: Vec<UserComment>,
}

pub struct VorbisCommentView {
    pub vendor: Seq<char>,
    pub comments: Seq<Seq<char>>,
}

impl View for VorbisComment {
    type V = VorbisCommentView;

    open spec fn view(&self) -> VorbisCommentView {
        VorbisCommentView { vendor: self.vendor@, comments: comments_view(self.comments@) }
    }
}

/// The role of a picture, by its 32-bit code (0 to 20).
#[derive(Clone, Copy, Debug, PartialEq, Eq)]
pub enum PictureKind {
    Other,
    FileIcon32x32,
    OtherFileIcon,
    FrontCover,
    BackCover,
    LeafletPage,
    Media,
    LeadArtist,
    Artist,
    Conductor,
    Band,
    Composer,
    Lyricist,
    RecordingLocation,
    DuringRecording,
    DuringPerformance,
    MovieCapture,
    BrightColouredFish,
    Illustration,
    ArtistLogotype,
    PublisherLogotype,
}

/// The picture kind with code `k`, if there is one.
pub open spec fn spec_picture_kind(k: u32) -> Option<PictureKind> {
    match k {
        0u32 => Some(PictureKind::Other),
        1u32 => Some(PictureKind::FileIcon32x32),
        2u32 => Some(PictureKind::OtherFileIcon),
        3u32 => Some(PictureKind::FrontCover),
        4u32 => Some(PictureKind::BackCover),
        5u32 => Some(PictureKind::LeafletPage),
        6u32 => Some(PictureKind::Media),
        7u32 => Some(PictureKind::LeadArtist),
        8u32 => Some(PictureKind::Artist),
        9u32 => Some(PictureKind::Conductor),
        10u32 => Some(PictureKind::Band),
        11u32 => Some(PictureKind::Composer),
        12u32 => Some(PictureKind::Lyricist),
        13u32 => Some(PictureKind::RecordingLocation),
        14u32 => Some(PictureKind::DuringRecording),
        15u32 => Some(PictureKind::DuringPerformance),
        16u32 => Some(PictureKind::MovieCapture),
        17u32 => Some(PictureKind::BrightColouredFish),
        18u32 => Some(PictureKind::Illustration),
        19u32 => Some(PictureKind::ArtistLogotype),
        20u32 => Some(PictureKind::PublisherLogotype),
        _ => None,
    }
}

/// The picture kind with code `k`, if there is one.
pub fn picture_kind_from_code(k: u32) -> (r: Option<PictureKind>)
    ensures
        r == spec_picture_kind(k),
{
    match k {
            0 => Some(PictureKind::Other),
            1 => Some(PictureKind::FileIcon32x32),
            2 => Some(PictureKind::OtherFileIcon),
            3 => Some(PictureKind::FrontCover),
            4 => Some(PictureKind::BackCover),
            5 => Some(PictureKind::LeafletPage),
            6 => Some(PictureKind::Media),
            7 => Some(PictureKind::LeadArtist),
            8 => Some(PictureKind::Artist),
            9 => Some(PictureKind::Conductor),
            10 => Some(PictureKind::Band),
            11 => Some(PictureKind::Composer),
            12 => Some(PictureKind::Lyricist),
            13 => Some(PictureKind::RecordingLocation),
            14 => Some(PictureKind::DuringRecording),
            15 => Some(PictureKind::DuringPerformance),
            16 => Some(PictureKind::MovieCapture),
            17 => Some(PictureKind::BrightColouredFish),
            18 => Some(PictureKind::Illustration),
            19 => Some(PictureKind::ArtistLogotype),
            20 => Some(PictureKind::PublisherLogotype),
        _ => None,
    }
}

/// A PICTURE block.
#[derive(Debug)]
pub struct Picture {
    pub kind: PictureKind,
    pub mime_type: String,
    pub description: String,
    pub width: u32,
    pub height: u32,
    pub depth: u32,
    pub colours: u32,
    pub data: Vec<u8>,
}

pub struct PictureView {
    pub kind: PictureKind,
    pub mime_type: Seq<char>,
    pub description: Seq<char>,
    pub width: u32,
    pub height: u32,
    pub depth: u32,
    pub colours: u32,
    pub data: Seq<u8>,
}

impl View for Picture {
    type V = PictureView;

    open spec fn view(&self) -> PictureView {
        PictureView {
            kind: self.kind,
            mime_type: self.mime_type@,
            description: self.description@,
            width: self.width,
            height: self.height,
            depth: self.depth,
            colours: self.colours,
            data: self.data@,
        }
    }
}

/// One metadata block, by its type tag.
#[derive(Debug)]
pub enum Metadata {
    /// Type 0.
    StreamInfo(StreamInfo),
    /// Type 1: bytes kept only so that offsets stay right.
    Padding { padding: Vec<u8> },
    /// Type 3.
    SeekTable { seekpoints: Vec<SeekPoint> },
    /// Type 4.
    VorbisComment(VorbisComment),
    /// Type 6.
    Picture(Picture),
}

pub enum MetadataView {
    StreamInfo(StreamInfo),
    Padding(Seq<u8>),
    SeekTable(Seq<SeekPoint>),
    VorbisComment(VorbisCommentView),
    Picture(PictureView),
}

impl View for Metadata {
    type V = MetadataView;

    open spec fn view(&self) -> MetadataView {
        match self {
            Metadata::StreamInfo(s) => MetadataView::StreamInfo(*s),
            Metadata::Padding { padding } => MetadataView::Padding(padding@),
            Metadata::SeekTable { seekpoints } => MetadataView::SeekTable(seekpoints@),
            Metadata::VorbisComment(v) => MetadataView::VorbisComment(v@),
            Metadata::Picture(p) => MetadataView::Picture(p@),
        }
    }
}

pub open spec fn blocks_view(m: Seq<Metadata>) -> Seq<MetadataView> {
    m.map_values(|b: Metadata| b@)
}

/// A decoded FLAC stream: its metadata blocks in file order.
#[derive(Debug)]
pub struct Flac {
    pub metadata: Vec<Metadata>,
}

impl View for Flac {
    type V = Seq<MetadataView>;

    open spec fn view(&self) -> Seq<MetadataView> {
        blocks_view(self.metadata@)
    }
}

// ---------------------------------------------------------------------------
// The format, as spec functions over the bytes and a position in them.

pub open spec fn stream_info_at(s: Seq<u8>, pos: int) -> StreamInfo {
    let packed = be64(s, pos + 10);
    StreamInfo {
        min_block_size: be16(s, pos) as u16,
        max_block_size: be16(s, pos + 2) as u16,
        min_frame_size: be24(s, pos + 4) as u32,
        max_frame_size: be24(s, pos + 7) as u32,
        sample_rate: (packed / 0x1000_0000_0000) as u32,
        channels: ((packed / 0x200_0000_0000) % 8) as u8,
        bits_per_sample: ((packed / 0x10_0000_0000) % 32) as u8,
        total_samples: (packed % 0x10_0000_0000) as u64,
        md5_signature: be128(s, pos + 18) as u128,
    }
}

/// A STREAMINFO body: 34 bytes.
pub open spec fn sp_stream_info(s: Seq<u8>, pos: int) -> Result<(StreamInfo, int), ParseError> {
    field(s, pos, 34, stream_info_at(s, pos))
}

pub open spec fn seek_point_at(s: Seq<u8>, pos: int) -> SeekPoint {
    SeekPoint {
        first_sample: be64(s, pos) as u64,
        offset: be64(s, pos + 8) as u64,
        samples: be16(s, pos + 16) as u16,
    }
}

/// `n` seek points of 18 bytes each.
pub open spec fn sp_seek_points(s: Seq<u8>, pos: int, n: int) -> Result<(Seq<SeekPoint>, int), ParseError> {
    field(s, pos, 18 * n, Seq::new(n as nat, |i: int| seek_point_at(s, pos + 18 * i)))
}

/// `n` more little-endian length-prefixed comments after the ones in `acc`.
pub open spec fn sp_comments(s: Seq<u8>, pos: int, n: int, acc: Seq<Seq<char>>) -> Result<(Seq<Seq<char>>, int), ParseError>
    decreases n,
{
    if n <= 0 {
        Ok((acc, pos))
    } else {
        match sp_len_string(s, pos, true) {
            Ok((c, p)) => sp_comments(s, p, n - 1, acc.push(c)),
            Err(e) => Err(e),
        }
    }
}

/// A VORBIS_COMMENT body: little-endian throughout, inside a big-endian stream.
pub open spec fn sp_vorbis_comment(s: Seq<u8>, pos: int) -> Result<(VorbisCommentView, int), ParseError> {
    match sp_len_string(s, pos, true) {
        Ok((vendor, p)) => match sp_u32(s, p, true) {
            Ok((n, q)) => match sp_comments(s, q, n as int, seq![]) {
                Ok((comments, r)) => Ok((VorbisCommentView { vendor, comments }, r)),
                Err(e) => Err(e),
            },
            Err(e) => Err(e),
        },
        Err(e) => Err(e),
    }
}

/// A PICTURE body, big-endian.
pub open spec fn sp_picture(s: Seq<u8>, pos: int) -> Result<(PictureView, int), ParseError> {
    match sp_u32(s, pos, false) {
        Err(e) => Err(e),
        Ok((code, p0)) => match spec_picture_kind(code) {
            None => Err(ParseError::InvalidPictureKind { kind: code }),
            Some(kind) => match sp_len_string(s, p0, false) {
                Err(e) => Err(e),
                Ok((mime_type, p1)) => match sp_len_string(s, p1, false) {
                    Err(e) => Err(e),
                    Ok((description, p2)) => if !fits(s, p2, 16) {
                        Err(ParseError::UnexpectedEnd)
                    } else {
                        match sp_len_bytes(s, p2 + 16, false) {
                            Err(e) => Err(e),
                            Ok((data, p3)) => Ok((
                                PictureView {
                                    kind,
                                    mime_type,
                                    description,
                                    width: be32(s, p2) as u32,
                                    height: be32(s, p2 + 4) as u32,
                                    depth: be32(s, p2 + 8) as u32,
                                    colours: be32(s, p2 + 12) as u32,
                                    data,
                                },
                                p3,
                            )),
                        }
                    },
                },
            },
        },
    }
}

/// A block body of the given type tag and declared byte size.
#[verifier::opaque]
pub open spec fn sp_block_body(s: Seq<u8>, pos: int, block_type: u8, size: u32) -> Result<(MetadataView, int), ParseError> {
    if block_type == 0 {
        match sp_stream_info(s, pos) {
            Ok((v, p)) => Ok((MetadataView::StreamInfo(v), p)),
            Err(e) => Err(e),
        }
    } else if block_type == 1 {
        match sp_bytes(s, pos, size as int) {
            Ok((v, p)) => Ok((MetadataView::Padding(v), p)),
            Err(e) => Err(e),
        }
    } else if block_type == 3 {
        match sp_seek_points(s, pos, (size / 18) as int) {
            Ok((v, p)) => Ok((MetadataView::SeekTable(v), p)),
            Err(e) => Err(e),
        }
    } else if block_type == 4 {
        match sp_vorbis_comment(s, pos) {
            Ok((v, p)) => Ok((MetadataView::VorbisComment(v), p)),
            Err(e) => Err(e),
        }
    } else if block_type == 6 {
        match sp_picture(s, pos) {
            Ok((v, p)) => Ok((MetadataView::Picture(v), p)),
            Err(e) => Err(e),
        }
    } else {
        Err(ParseError::UnsupportedBlockType { block_type })
    }
}

/// The last-block flag: the top bit of a block header's first byte.
pub open spec fn header_is_last(s: Seq<u8>, pos: int) -> bool {
    s[pos] >= 0x80
}

/// The block type: the low seven bits of a block header's first byte.
pub open spec fn header_block_type(s: Seq<u8>, pos: int) -> u8 {
    (s[pos] % 0x80) as u8
}

/// The declared body size: the 24-bit big-endian rest of a block header.
pub open spec fn header_size(s: Seq<u8>, pos: int) -> u32 {
    be24(s, pos + 1) as u32
}

/// The blocks from `pos` on, after the ones in `acc`, up to and including the
/// first whose header carries the last-block flag.
pub open spec fn sp_blocks(s: Seq<u8>, pos: int, acc: Seq<MetadataView>) -> Result<(Seq<MetadataView>, int), ParseError>
    decreases s.len() - pos,
    via blocks_decrease
{
    if !fits(s, pos, 4) {
        Err(ParseError::UnexpectedEnd)
    } else {
        match sp_block_body(s, pos + 4, header_block_type(s, pos), header_size(s, pos)) {
            Err(e) => Err(e),
            Ok((m, p)) => if header_is_last(s, pos) {
                Ok((acc.push(m), p))
            } else {
                sp_blocks(s, p, acc.push(m))
            },
        }
    }
}

#[via_fn]
proof fn blocks_decrease(s: Seq<u8>, pos: int, acc: Seq<MetadataView>) {
    if fits(s, pos, 4) {
        lemma_block_body_advances(s, pos + 4, header_block_type(s, pos), header_size(s, pos));
    }
}

/// The magic that opens a FLAC stream.
pub open spec fn flac_magic() -> Seq<u8> {
    seq![0x66u8, 0x4c, 0x61, 0x43]
}

/// A whole FLAC stream: `fLaC`, then its metadata blocks.
pub open spec fn spec_flac(s: Seq<u8>) -> Result<Seq<MetadataView>, ParseError> {
    if s.len() < 4 {
        Err(ParseError::UnexpectedEnd)
    } else if s.subrange(0, 4) != flac_magic() {
        Err(ParseError::BadMagic)
    } else {
        match sp_blocks(s, 4, seq![]) {
            Ok((blocks, _)) => Ok(blocks),
            Err(e) => Err(e),
        }
    }
}

// ---------------------------------------------------------------------------
// Each decoder ends inside the buffer, and never before it started.

#[verifier::rlimit(50)]
proof fn lemma_comments_advance(s: Seq<u8>, pos: int, n: int, acc: Seq<Seq<char>>)
    requires
        0 <= pos <= s.len(),
    ensures
        sp_comments(s, pos, n, acc) matches Ok((_, p)) ==> pos <= p <= s.len(),
    decreases n,
{
    if n > 0 {
        lemma_len_string_advances(s, pos, true);
        if let Ok((c, p)) = sp_len_string(s, pos, true) {
            lemma_comments_advance(s, p, n - 1, acc.push(c));
        }
    }
}

#[verifier::rlimit(50)]
proof fn lemma_block_body_advances(s: Seq<u8>, pos: int, block_type: u8, size: u32)
    ensures
        sp_block_body(s, pos, block_type, size) matches Ok((_, p)) ==> pos <= p <= s.len(),
{
    reveal(sp_block_body);
    if block_type == 4 {
        lemma_len_string_advances(s, pos, true);
        if let Ok((_, p)) = sp_len_string(s, pos, true) {
            if let Ok((n, q)) = sp_u32(s, p, true) {
                lemma_comments_advance(s, q, n as int, seq![]);
            }
        }
    } else if block_type == 6 {
        if let Ok((_, p0)) = sp_u32(s, pos, false) {
            lemma_len_string_advances(s, p0, false);
            if let Ok((_, p1)) = sp_len_string(s, p0, false) {
                lemma_len_string_advances(s, p1, false);
                if let Ok((_, p2)) = sp_len_string(s, p1, false) {
                    lemma_len_string_advances(s, p2 + 16, false);
                }
            }
        }
    } else if block_type == 3 {
        assert(0 <= 18 * (size / 18)) by (nonlinear_arith);
    }
}


// ---------------------------------------------------------------------------
// The decoders.

impl StreamInfo {
    /// Reads a STREAMINFO body at `pos`.
    pub fn read(data: &[u8], pos: usize) -> (r: Result<(StreamInfo, usize), ParseError>)
        ensures
            outcome(r) == sp_stream_info(data@, pos as int),
    {
        if !(pos <= data.len() && 34 <= data.len() - pos) {
            return Err(ParseError::UnexpectedEnd);
        }
        let (min_block_size, p) = match read_u16_be(data, pos) {
            Ok(x) => x,
            Err(e) => return Err(e),
        };
        let (max_block_size, p) = match read_u16_be(data, p) {
            Ok(x) => x,
            Err(e) => return Err(e),
        };
        let (min_frame_size, p) = match read_u24_be(data, p) {
            Ok(x) => x,
            Err(e) => return Err(e),
        };
        let (max_frame_size, p) = match read_u24_be(data, p) {
            Ok(x) => x,
            Err(e) => return Err(e),
        };
        let (packed, p) = match read_u64_be(data, p) {
            Ok(x) => x,
            Err(e) => return Err(e),
        };
        let (md5_signature, p) = match read_u128_be(data, p) {
            Ok(x) => x,
            Err(e) => return Err(e),
        };
        let info = StreamInfo {
            min_block_size,
            max_block_size,
            min_frame_size,
            max_frame_size,
            sample_rate: (packed / 0x1000_0000_0000) as u32,
            channels: ((packed / 0x200_0000_0000) % 8) as u8,
            bits_per_sample: ((packed / 0x10_0000_0000) % 32) as u8,
            total_samples: packed % 0x10_0000_0000,
            md5_signature,
        };
        Ok((info, p))
    }
}

impl SeekPoint {
    /// Reads one 18-byte seek point at `pos`.
    pub fn read(data: &[u8], pos: usize) -> (r: Result<(SeekPoint, usize), ParseError>)
        ensures
            outcome(r) == field(data@, pos as int, 18, seek_point_at(data@, pos as int)),
    {
        if !(pos <= data.len() && 18 <= data.len() - pos) {
            return Err(ParseError::UnexpectedEnd);
        }
        let (first_sample, p) = match read_u64_be(data, pos) {
            Ok(x) => x,
            Err(e) => return Err(e),
        };
        let (offset, p) = match read_u64_be(data, p) {
            Ok(x) => x,
            Err(e) => return Err(e),
        };
        let (samples, p) = match read_u16_be(data, p) {
            Ok(x) => x,
            Err(e) => return Err(e),
        };
        Ok((SeekPoint { first_sample, offset, samples }, p))
    }
}

/// Reads `n` seek points at `pos`.
pub fn read_seek_points(data: &[u8], pos: usize, n: usize) -> (r: Result<(Vec<SeekPoint>, usize), ParseError>)
    ensures
        outcome(r) == sp_seek_points(data@, pos as int, n as int),
{
    if !(pos <= data.len() && n <= (data.len() - pos) / 18) {
        return Err(ParseError::UnexpectedEnd);
    }
    let mut out: Vec<SeekPoint> = Vec::new();
    let mut i: usize = 0;
    while i < n
        invariant
            i <= n,
            pos + 18 * n <= data.len(),
            out@ =~= Seq::new(i as nat, |k: int| seek_point_at(data@, pos + 18 * k)),
        decreases n - i,
    {
        let (sp, _) = match SeekPoint::read(data, pos + 18 * i) {
            Ok(x) => x,
            Err(e) => return Err(e),
        };
        out.push(sp);
        i = i + 1;
    }
    Ok((out, pos + 18 * n))
}

impl UserComment {
    /// Reads one little-endian length-prefixed comment at `pos`.
    pub fn read(data: &[u8], pos: usize) -> (r: Result<(UserComment, usize), ParseError>)
        ensures
            outcome(r) == sp_len_string(data@, pos as int, true),
    {
        match CountThenVec::read(data, pos, true) {
            Ok((c, p)) => match c.map_str() {
                Ok(comment) => Ok((UserComment { comment }, p)),
                Err(e) => Err(e),
            },
            Err(e) => Err(e),
        }
    }
}

impl VorbisComment {
    /// Reads a VORBIS_COMMENT body at `pos`.
    pub fn read(data: &[u8], pos: usize) -> (r: Result<(VorbisComment, usize), ParseError>)
        ensures
            outcome(r) == sp_vorbis_comment(data@, pos as int),
    {
        let (vendor, p) = match CountThenVec::read(data, pos, true) {
            Ok((c, p)) => match c.map_str() {
                Ok(s) => (s, p),
                Err(e) => return Err(e),
            },
            Err(e) => return Err(e),
        };
        let (n, mut p) = match read_u32(data, p, true) {
            Ok(x) => x,
            Err(e) => return Err(e),
        };
        let ghost q = p;
        let mut comments: Vec<UserComment> = Vec::new();
        let mut i: u32 = 0;
        assert(comments_view(comments@) =~= seq![]);
        while i < n
            invariant
                i <= n,
                sp_comments(data@, p as int, n - i, comments_view(comments@))
                    == sp_comments(data@, q as int, n as int, seq![]),
                sp_vorbis_comment(data@, pos as int) == match sp_comments(data@, q as int, n as int, seq![]) {
                    Ok((comments, r)) => Ok((VorbisCommentView { vendor: vendor@, comments }, r)),
                    Err(e) => Err(e),
                },
            decreases n - i,
        {
            let (c, next) = match UserComment::read(data, p) {
                Ok(x) => x,
                Err(e) => return Err(e),
            };
            let ghost before = comments@;
            comments.push(c);
            assert(comments_view(comments@) =~= comments_view(before).push(c@));
            p = next;
            i = i + 1;
        }
        Ok((VorbisComment { vendor, comments }, p))
    }
}

impl Picture {
    /// Reads a PICTURE body at `pos`.
    pub fn read(data: &[u8], pos: usize) -> (r: Result<(Picture, usize), ParseError>)
        ensures
            outcome(r) == sp_picture(data@, pos as int),
    {
        let (code, p) = match read_u32(data, pos, false) {
            Ok(x) => x,
            Err(e) => return Err(e),
        };
        let kind = match picture_kind_from_code(code) {
            Some(k) => k,
            None => return Err(ParseError::InvalidPictureKind { kind: code }),
        };
        let (mime_type, p) = match CountThenVec::read(data, p, false) {
            Ok((c, p)) => match c.map_str() {
                Ok(s) => (s, p),
                Err(e) => return Err(e),
            },
            Err(e) => return Err(e),
        };
        let (description, p) = match CountThenVec::read(data, p, false) {
            Ok((c, p)) => match c.map_str() {
                Ok(s) => (s, p),
                Err(e) => return Err(e),
            },
            Err(e) => return Err(e),
        };
        if !(p <= data.len() && 16 <= data.len() - p) {
            return Err(ParseError::UnexpectedEnd);
        }
        let (width, p) = match read_u32(data, p, false) {
            Ok(x) => x,
            Err(e) => return Err(e),
        };
        let (height, p) = match read_u32(data, p, false) {
            Ok(x) => x,
            Err(e) => return Err(e),
        };
        let (depth, p) = match read_u32(data, p, false) {
            Ok(x) => x,
            Err(e) => return Err(e),
        };
        let (colours, p) = match read_u32(data, p, false) {
            Ok(x) => x,
            Err(e) => return Err(e),
        };
        let (bytes, p) = match CountThenVec::read(data, p, false) {
            Ok(x) => x,
            Err(e) => return Err(e),
        };
        let picture = Picture {
            kind,
            mime_type,
            description,
            width,
            height,
            depth,
            colours,
            data: bytes.map(),
        };
        Ok((picture, p))
    }
}

impl Metadata {
    /// Reads a block body of the given type tag and declared byte size at `pos`.
    pub fn read(data: &[u8], pos: usize, block_type: u8, size: u32) -> (r: Result<(Metadata, usize), ParseError>)
        ensures
            outcome(r) == sp_block_body(data@, pos as int, block_type, size),
    {
        reveal(sp_block_body);
        if block_type == 0 {
            match StreamInfo::read(data, pos) {
                Ok((v, p)) => Ok((Metadata::StreamInfo(v), p)),
                Err(e) => Err(e),
            }
        } else if block_type == 1 {
            match read_bytes(data, pos, size as usize) {
                Ok((padding, p)) => Ok((Metadata::Padding { padding }, p)),
                Err(e) => Err(e),
            }
        } else if block_type == 3 {
            match read_seek_points(data, pos, (size / 18) as usize) {
                Ok((seekpoints, p)) => Ok((Metadata::SeekTable { seekpoints }, p)),
                Err(e) => Err(e),
            }
        } else if block_type == 4 {
            match VorbisComment::read(data, pos) {
                Ok((v, p)) => Ok((Metadata::VorbisComment(v), p)),
                Err(e) => Err(e),
            }
        } else if block_type == 6 {
            match Picture::read(data, pos) {
                Ok((v, p)) => Ok((Metadata::Picture(v), p)),
                Err(e) => Err(e),
            }
        } else {
            Err(ParseError::UnsupportedBlockType { block_type })
        }
    }

    /// Reads blocks from `pos` up to and including the first whose header
    /// carries the last-block flag.
    pub fn read_vec(data: &[u8], pos: usize) -> (r: Result<(Vec<Metadata>, usize), ParseError>)
        ensures
            match r {
                Ok((v, p)) => sp_blocks(data@, pos as int, seq![]) == Ok::<(Seq<MetadataView>, int), ParseError>((blocks_view(v@), p as int)),
                Err(e) => sp_blocks(data@, pos as int, seq![]) == Err::<(Seq<MetadataView>, int), ParseError>(e),
            },
    {
        let mut blocks: Vec<Metadata> = Vec::new();
        let mut p: usize = pos;
        assert(blocks_view(blocks@) =~= seq![]);
        loop
            invariant
                sp_blocks(data@, p as int, blocks_view(blocks@)) == sp_blocks(data@, pos as int, seq![]),
            decreases data.len() - p,
        {
            let (first, _) = match read_u8(data, p) {
                Ok(x) => x,
                Err(e) => return Err(e),
            };
            if !(p <= data.len() && 4 <= data.len() - p) {
                return Err(ParseError::UnexpectedEnd);
            }
            let (size, body) = match read_u24_be(data, p + 1) {
                Ok(x) => x,
                Err(e) => return Err(e),
            };
            let is_last = first >= 0x80;
            let block_type = first % 0x80;
            proof {
                lemma_block_body_advances(data@, body as int, block_type, size);
            }
            let (m, next) = match Metadata::read(data, body, block_type, size) {
                Ok(x) => x,
                Err(e) => return Err(e),
            };
            let ghost before = blocks@;
            blocks.push(m);
            assert(blocks_view(blocks@) =~= blocks_view(before).push(m@));
            if is_last {
                return Ok((blocks, next));
            }
            p = next;
        }
    }
}

impl Flac {
    /// Decodes a FLAC stream's metadata from the bytes of a whole file.
    pub fn from_bytes(data: &[u8]) -> (r: Result<Flac, ParseError>)
        ensures
            match r {
                Ok(f) => spec_flac(data@) == Ok::<Seq<MetadataView>, ParseError>(f@),
                Err(e) => spec_flac(data@) == Err::<Seq<MetadataView>, ParseError>(e),
            },
    {
        if data.len() < 4 {
            return Err(ParseError::UnexpectedEnd);
        }
        if !(data[0] == 0x66 && data[1] == 0x4c && data[2] == 0x61 && data[3] == 0x43) {
            proof {
                if data@.subrange(0, 4) == flac_magic() {
                    assert(data@.subrange(0, 4)[0] == data@[0]);
                    assert(data@.subrange(0, 4)[1] == data@[1]);
                    assert(data@.subrange(0, 4)[2] == data@[2]);
                    assert(data@.subrange(0, 4)[3] == data@[3]);
                }
            }
            return Err(ParseError::BadMagic);
        }
        assert(data@.subrange(0, 4) =~= flac_magic());
        match Metadata::read_vec(data, 4) {
            Ok((metadata, _)) => Ok(Flac { metadata }),
            Err(e) => Err(e),
        }
    }
}


// ---------------------------------------------------------------------------
// Laws.

/// Block iteration stops exactly at the flagged block: where the header at
/// each of `starts` opens a body that decodes to the matching entry of `ms`
/// and ends where the next block starts (the last one at `end`), and only
/// the last of those headers carries the last-block flag, the blocks decode
/// to exactly those blocks, in file order, ending at `end`.
#[verifier::rlimit(50)]
pub proof fn lemma_blocks_in_file_order(s: Seq<u8>, starts: Seq<int>, ms: Seq<MetadataView>, end: int, acc: Seq<MetadataView>)
    requires
        starts.len() == ms.len(),
        starts.len() >= 1,
        forall|i: int|
            0 <= i < starts.len() ==> fits(s, #[trigger] starts[i], 4) && sp_block_body(
                s,
                starts[i] + 4,
                header_block_type(s, starts[i]),
                header_size(s, starts[i]),
            ) == Ok::<(MetadataView, int), ParseError>(
                (ms[i], if i + 1 < starts.len() { starts[i + 1] } else { end }),
            ) && (header_is_last(s, starts[i]) <==> i == starts.len() - 1),
    ensures
        sp_blocks(s, starts[0], acc) == Ok::<(Seq<MetadataView>, int), ParseError>((acc + ms, end)),
    decreases starts.len(),
{
    let n = starts.len();
    assert(fits(s, starts[0], 4));
    if n == 1 {
        assert(acc + ms =~= acc.push(ms[0]));
    } else {
        let rest = starts.drop_first();
        let rms = ms.drop_first();
        assert forall|i: int|
            0 <= i < rest.len() implies fits(s, #[trigger] rest[i], 4) && sp_block_body(
                s,
                rest[i] + 4,
                header_block_type(s, rest[i]),
                header_size(s, rest[i]),
            ) == Ok::<(MetadataView, int), ParseError>(
                (rms[i], if i + 1 < rest.len() { rest[i + 1] } else { end }),
            ) && (header_is_last(s, rest[i]) <==> i == rest.len() - 1) by {
            assert(rest[i] == starts[i + 1]);
            assert(fits(s, starts[i + 1], 4));
        }
        lemma_blocks_in_file_order(s, rest, rms, end, acc.push(ms[0]));
        assert(acc.push(ms[0]) + rms =~= acc + ms);
    }
}

/// Two bytes, most significant first.
pub open spec fn be_bytes2(v: int) -> Seq<u8> {
    seq![(v / 0x100) as u8, (v % 0x100) as u8]
}

/// Three bytes, most significant first.
pub open spec fn be_bytes3(v: int) -> Seq<u8> {
    seq![(v / 0x1_0000) as u8, ((v / 0x100) % 0x100) as u8, (v % 0x100) as u8]
}

/// Four bytes, most significant first.
pub open spec fn be_bytes4(v: int) -> Seq<u8> {
    seq![(v / 0x100_0000) as u8, ((v / 0x1_0000) % 0x100) as u8, ((v / 0x100) % 0x100) as u8, (v % 0x100) as u8]
}

/// Eight bytes, most significant first.
pub open spec fn be_bytes8(v: int) -> Seq<u8> {
    be_bytes4(v / 0x1_0000_0000) + be_bytes4(v % 0x1_0000_0000)
}

/// Sixteen bytes, most significant first.
pub open spec fn be_bytes16(v: int) -> Seq<u8> {
    be_bytes8(v / 0x1_0000_0000_0000_0000) + be_bytes8(v % 0x1_0000_0000_0000_0000)
}

/// The 64 bits that pack sample rate, channels, bits per sample and total samples.
pub open spec fn packed_fields(si: StreamInfo) -> int {
    si.sample_rate * 0x1000_0000_0000 + si.channels * 0x200_0000_0000 + si.bits_per_sample * 0x10_0000_0000
        + si.total_samples
}

/// Each field fits the bits the format gives it.
pub open spec fn stream_info_encodable(si: StreamInfo) -> bool {
    si.min_frame_size < 0x100_0000 && si.max_frame_size < 0x100_0000 && si.sample_rate < 0x10_0000
        && si.channels < 8 && si.bits_per_sample < 32 && si.total_samples < 0x10_0000_0000
}

/// The 34 bytes of a STREAMINFO body.
pub open spec fn stream_info_bytes(si: StreamInfo) -> Seq<u8> {
    be_bytes2(si.min_block_size as int) + be_bytes2(si.max_block_size as int) + be_bytes3(si.min_frame_size as int)
        + be_bytes3(si.max_frame_size as int) + be_bytes8(packed_fields(si)) + be_bytes16(si.md5_signature as int)
}

/// The smallest FLAC stream: the magic, then one STREAMINFO block that
/// carries the last-block flag.
pub open spec fn minimal_flac(si: StreamInfo) -> Seq<u8> {
    flac_magic() + seq![0x80u8, 0x00, 0x00, 0x22] + stream_info_bytes(si)
}

proof fn lemma_be_bytes2(v: int)
    requires
        0 <= v < 0x1_0000,
    ensures
        be16(be_bytes2(v), 0) == v,
{
}

proof fn lemma_be_bytes3(v: int)
    requires
        0 <= v < 0x100_0000,
    ensures
        be24(be_bytes3(v), 0) == v,
{
}

proof fn lemma_be_bytes4(v: int)
    requires
        0 <= v < 0x1_0000_0000,
    ensures
        be32(be_bytes4(v), 0) == v,
{
}

#[verifier::rlimit(50)]
proof fn lemma_be_bytes8(v: int)
    requires
        0 <= v < 0x1_0000_0000_0000_0000,
    ensures
        be64(be_bytes8(v), 0) == v,
{
    let s = be_bytes8(v);
    lemma_be_bytes4(v / 0x1_0000_0000);
    lemma_be_bytes4(v % 0x1_0000_0000);
    assert(s.subrange(0, 4) =~= be_bytes4(v / 0x1_0000_0000));
    assert(s.subrange(4, 8) =~= be_bytes4(v % 0x1_0000_0000));
    assert(be32(s, 0) == be32(s.subrange(0, 4), 0));
    assert(be32(s, 4) == be32(s.subrange(4, 8), 0));
}

#[verifier::rlimit(50)]
proof fn lemma_be_bytes16(v: int)
    requires
        0 <= v < 0x1_0000_0000_0000_0000_0000_0000_0000_0000,
    ensures
        be128(be_bytes16(v), 0) == v,
{
    let s = be_bytes16(v);
    lemma_be_bytes8(v / 0x1_0000_0000_0000_0000);
    lemma_be_bytes8(v % 0x1_0000_0000_0000_0000);
    assert(s.subrange(0, 8) =~= be_bytes8(v / 0x1_0000_0000_0000_0000));
    assert(s.subrange(8, 16) =~= be_bytes8(v % 0x1_0000_0000_0000_0000));
    assert(be64(s, 0) == be64(s.subrange(0, 8), 0));
    assert(be64(s, 8) == be64(s.subrange(8, 16), 0));
}

#[verifier::rlimit(50)]
proof fn lemma_packed_fields(a: int, b: int, c: int, d: int)
    requires
        0 <= a < 0x10_0000,
        0 <= b < 8,
        0 <= c < 32,
        0 <= d < 0x10_0000_0000,
    ensures
        ({
            let p = a * 0x1000_0000_0000 + b * 0x200_0000_0000 + c * 0x10_0000_0000 + d;
            &&& 0 <= p < 0x1_0000_0000_0000_0000
            &&& p / 0x1000_0000_0000 == a
            &&& (p / 0x200_0000_0000) % 8 == b
            &&& (p / 0x10_0000_0000) % 32 == c
            &&& p % 0x10_0000_0000 == d
        }),
{
    let p = a * 0x1000_0000_0000 + b * 0x200_0000_0000 + c * 0x10_0000_0000 + d;
    let low = c * 0x10_0000_0000 + d;
    assert(0 <= low < 0x200_0000_0000);
    assert(p == (a * 8 + b) * 0x200_0000_0000 + low);
    vstd::arithmetic::div_mod::lemma_fundamental_div_mod_converse(p, 0x200_0000_0000, a * 8 + b, low);
    vstd::arithmetic::div_mod::lemma_fundamental_div_mod_converse(a * 8 + b, 8, a, b);
    assert(p == (a * 0x100 + b * 0x20 + c) * 0x10_0000_0000 + d);
    vstd::arithmetic::div_mod::lemma_fundamental_div_mod_converse(p, 0x10_0000_0000, a * 0x100 + b * 0x20 + c, d);
    vstd::arithmetic::div_mod::lemma_fundamental_div_mod_converse(a * 0x100 + b * 0x20 + c, 32, a * 8 + b, c);
    assert(p == a * 0x1000_0000_0000 + (b * 0x200_0000_0000 + low));
    vstd::arithmetic::div_mod::lemma_fundamental_div_mod_converse(p, 0x1000_0000_0000, a, b * 0x200_0000_0000 + low);
}

#[verifier::rlimit(50)]
proof fn lemma_stream_info_layout(si: StreamInfo)
    ensures
        ({
            let b = stream_info_bytes(si);
            &&& b.len() == 34
            &&& b.subrange(0, 2) == be_bytes2(si.min_block_size as int)
            &&& b.subrange(2, 4) == be_bytes2(si.max_block_size as int)
            &&& b.subrange(4, 7) == be_bytes3(si.min_frame_size as int)
            &&& b.subrange(7, 10) == be_bytes3(si.max_frame_size as int)
            &&& b.subrange(10, 18) == be_bytes8(packed_fields(si))
            &&& b.subrange(18, 34) == be_bytes16(si.md5_signature as int)
        }),
{
    let x2 = be_bytes2(si.min_block_size as int);
    let y2 = be_bytes2(si.max_block_size as int);
    let x3 = be_bytes3(si.min_frame_size as int);
    let y3 = be_bytes3(si.max_frame_size as int);
    let p8 = be_bytes8(packed_fields(si));
    let m16 = be_bytes16(si.md5_signature as int);
    let b = stream_info_bytes(si);
    assert(b == x2 + y2 + x3 + y3 + p8 + m16);
    assert(b.subrange(0, 2) =~= x2);
    assert(b.subrange(2, 4) =~= y2);
    assert(b.subrange(4, 7) =~= x3);
    assert(b.subrange(7, 10) =~= y3);
    assert(b.subrange(10, 18) =~= p8);
    assert(b.subrange(18, 34) =~= m16);
}

/// Reading a field from a buffer or from the bytes it spans gives the same value.
proof fn lemma_fields_in_subrange(b: Seq<u8>)
    requires
        b.len() == 34,
    ensures
        be16(b, 0) == be16(b.subrange(0, 2), 0),
        be16(b, 2) == be16(b.subrange(2, 4), 0),
        be24(b, 4) == be24(b.subrange(4, 7), 0),
        be24(b, 7) == be24(b.subrange(7, 10), 0),
        be64(b, 10) == be64(b.subrange(10, 18), 0),
        be128(b, 18) == be128(b.subrange(18, 34), 0),
{
}

#[verifier::rlimit(50)]
proof fn lemma_stream_info_bytes(si: StreamInfo)
    requires
        stream_info_encodable(si),
    ensures
        stream_info_at(stream_info_bytes(si), 0) == si,
{
    let b = stream_info_bytes(si);
    lemma_stream_info_layout(si);
    lemma_fields_in_subrange(b);
    lemma_be_bytes2(si.min_block_size as int);
    lemma_be_bytes2(si.max_block_size as int);
    lemma_be_bytes3(si.min_frame_size as int);
    lemma_be_bytes3(si.max_frame_size as int);
    lemma_packed_fields(si.sample_rate as int, si.channels as int, si.bits_per_sample as int, si.total_samples as int);
    lemma_be_bytes8(packed_fields(si));
    lemma_be_bytes16(si.md5_signature as int);
}

#[verifier::rlimit(50)]
proof fn lemma_stream_info_at_shift(s: Seq<u8>, pos: int)
    requires
        fits(s, pos, 34),
    ensures
        stream_info_at(s, pos) == stream_info_at(s.subrange(pos, pos + 34), 0),
{
    let b = s.subrange(pos, pos + 34);
    assert(forall|k: int| 0 <= k < 34 ==> b[k] == s[pos + k]);
}

/// Round trip: a minimal FLAC stream built from a STREAMINFO whose fields fit
/// their bit widths decodes to exactly one STREAMINFO block equal to it.
#[verifier::rlimit(50)]
pub proof fn lemma_minimal_flac_round_trip(si: StreamInfo)
    requires
        stream_info_encodable(si),
    ensures
        spec_flac(minimal_flac(si)) == Ok::<Seq<MetadataView>, ParseError>(seq![MetadataView::StreamInfo(si)]),
{
    let s = minimal_flac(si);
    assert(s.len() == 42);
    assert(s.subrange(0, 4) =~= flac_magic());
    assert(s[4] == 0x80 && s[5] == 0 && s[6] == 0 && s[7] == 0x22);
    assert(header_size(s, 4) == 34);
    assert(header_block_type(s, 4) == 0);
    assert(s.subrange(8, 42) =~= stream_info_bytes(si));
    lemma_stream_info_bytes(si);
    lemma_stream_info_at_shift(s, 8);
    assert(stream_info_at(s, 8) == si);
    reveal(sp_block_body);
    assert(sp_blocks(s, 4, seq![]) == Ok::<(Seq<MetadataView>, int), ParseError>((seq![MetadataView::StreamInfo(si)], 42)));
}


/// Four bytes, least significant first.
pub open spec fn le_bytes4(v: int) -> Seq<u8> {
    seq![(v % 0x100) as u8, ((v / 0x100) % 0x100) as u8, ((v / 0x1_0000) % 0x100) as u8, (v / 0x100_0000) as u8]
}

/// Bytes after their little-endian 32-bit length.
pub open spec fn le_prefixed(b: Seq<u8>) -> Seq<u8> {
    le_bytes4(b.len() as int) + b
}

/// Each comment after its little-endian length, one after another.
pub open spec fn comment_list_bytes(cs: Seq<Seq<u8>>) -> Seq<u8>
    decreases cs.len(),
{
    if cs.len() == 0 {
        seq![]
    } else {
        le_prefixed(cs[0]) + comment_list_bytes(cs.drop_first())
    }
}

/// A VORBIS_COMMENT body: the vendor string and the comment count, and each
/// comment, all with little-endian length prefixes.
pub open spec fn vorbis_comment_bytes(vendor: Seq<u8>, cs: Seq<Seq<u8>>) -> Seq<u8> {
    le_prefixed(vendor) + le_bytes4(cs.len() as int) + comment_list_bytes(cs)
}

/// The lengths fit a 32-bit prefix and every string is valid UTF-8.
pub open spec fn vorbis_encodable(vendor: Seq<u8>, cs: Seq<Seq<u8>>) -> bool {
    &&& vendor.len() < 0x1_0000_0000
    &&& valid_utf8(vendor)
    &&& cs.len() < 0x1_0000_0000
    &&& forall|j: int| 0 <= j < cs.len() ==> (#[trigger] cs[j]).len() < 0x1_0000_0000 && valid_utf8(cs[j])
}

proof fn lemma_le_bytes4(v: u32)
    by (bit_vector)
    ensures
        (v % 0x100) + ((v / 0x100) % 0x100) * 0x100 + ((v / 0x1_0000) % 0x100) * 0x1_0000 + (v / 0x100_0000) * 0x100_0000 == v,
        v / 0x100_0000 < 0x100,
{
}

/// A little-endian length-prefixed string laid out at `pos` reads back.
#[verifier::rlimit(50)]
proof fn lemma_le_prefixed_string(s: Seq<u8>, pos: int, b: Seq<u8>)
    requires
        0 <= pos,
        pos + 4 + b.len() <= s.len(),
        b.len() < 0x1_0000_0000,
        s.subrange(pos, pos + 4 + b.len()) == le_prefixed(b),
    ensures
        sp_len_bytes(s, pos, true) == Ok::<(Seq<u8>, int), ParseError>((b, pos + 4 + b.len())),
{
    let n = b.len() as int;
    let w = le_prefixed(b);
    lemma_le_bytes4(n as u32);
    assert(s[pos] == w[0] && s[pos + 1] == w[1] && s[pos + 2] == w[2] && s[pos + 3] == w[3]);
    assert(le32(s, pos) == n);
    assert(s.subrange(pos + 4, pos + 4 + n) =~= w.subrange(4, 4 + n));
    assert(w.subrange(4, 4 + n) =~= b);
}

#[verifier::rlimit(50)]
proof fn lemma_comment_list(s: Seq<u8>, pos: int, cs: Seq<Seq<u8>>, acc: Seq<Seq<char>>)
    requires
        0 <= pos,
        pos + comment_list_bytes(cs).len() <= s.len(),
        s.subrange(pos, pos + comment_list_bytes(cs).len()) == comment_list_bytes(cs),
        forall|j: int| 0 <= j < cs.len() ==> (#[trigger] cs[j]).len() < 0x1_0000_0000 && valid_utf8(cs[j]),
    ensures
        sp_comments(s, pos, cs.len() as int, acc) == Ok::<(Seq<Seq<char>>, int), ParseError>(
            (acc + cs.map_values(|c: Seq<u8>| decode_utf8(c)), pos + comment_list_bytes(cs).len()),
        ),
    decreases cs.len(),
{
    if cs.len() == 0 {
        assert(acc + cs.map_values(|c: Seq<u8>| decode_utf8(c)) =~= acc);
    } else {
        let first = le_prefixed(cs[0]);
        let rest = cs.drop_first();
        let all = comment_list_bytes(cs);
        let fl = first.len() as int;
        assert(all == first + comment_list_bytes(rest));
        assert(s.subrange(pos, pos + fl) =~= all.subrange(0, fl));
        assert(all.subrange(0, fl) =~= first);
        lemma_le_prefixed_string(s, pos, cs[0]);
        let q = pos + fl;
        assert(s.subrange(q, q + comment_list_bytes(rest).len()) =~= all.subrange(fl, all.len() as int));
        assert(all.subrange(fl, all.len() as int) =~= comment_list_bytes(rest));
        assert forall|j: int| 0 <= j < rest.len() implies (#[trigger] rest[j]).len() < 0x1_0000_0000 && valid_utf8(rest[j]) by {
            assert(rest[j] == cs[j + 1]);
        }
        lemma_comment_list(s, q, rest, acc.push(decode_utf8(cs[0])));
        assert(acc.push(decode_utf8(cs[0])) + rest.map_values(|c: Seq<u8>| decode_utf8(c))
            =~= acc + cs.map_values(|c: Seq<u8>| decode_utf8(c)));
    }
}

/// A VORBIS_COMMENT body laid out at `pos`, inside the big-endian stream,
/// decodes to its vendor string and its comments in order: every length and
/// the comment count are read little-endian.
#[verifier::rlimit(50)]
pub proof fn lemma_vorbis_comment_little_endian(s: Seq<u8>, pos: int, vendor: Seq<u8>, cs: Seq<Seq<u8>>)
    requires
        0 <= pos,
        vorbis_encodable(vendor, cs),
        pos + vorbis_comment_bytes(vendor, cs).len() <= s.len(),
        s.subrange(pos, pos + vorbis_comment_bytes(vendor, cs).len()) == vorbis_comment_bytes(vendor, cs),
    ensures
        sp_vorbis_comment(s, pos) == Ok::<(VorbisCommentView, int), ParseError>(
            (
                VorbisCommentView {
                    vendor: decode_utf8(vendor),
                    comments: cs.map_values(|c: Seq<u8>| decode_utf8(c)),
                },
                pos + vorbis_comment_bytes(vendor, cs).len(),
            ),
        ),
{
    let all = vorbis_comment_bytes(vendor, cs);
    let v = le_prefixed(vendor);
    let vl = v.len() as int;
    let cnt = le_bytes4(cs.len() as int);
    let list = comment_list_bytes(cs);
    assert(all == v + cnt + list);
    assert(s.subrange(pos, pos + vl) =~= all.subrange(0, vl));
    assert(all.subrange(0, vl) =~= v);
    lemma_le_prefixed_string(s, pos, vendor);
    let p = pos + vl;
    lemma_le_bytes4(cs.len() as u32);
    assert(s[p] == all[vl] && s[p + 1] == all[vl + 1] && s[p + 2] == all[vl + 2] && s[p + 3] == all[vl + 3]);
    assert(all[vl] == cnt[0] && all[vl + 1] == cnt[1] && all[vl + 2] == cnt[2] && all[vl + 3] == cnt[3]);
    assert(le32(s, p) == cs.len());
    let q = p + 4;
    assert(s.subrange(q, q + list.len()) =~= all.subrange(vl + 4, all.len() as int));
    assert(all.subrange(vl + 4, all.len() as int) =~= list);
    lemma_comment_list(s, q, cs, seq![]);
    assert(seq![] + cs.map_values(|c: Seq<u8>| decode_utf8(c)) =~= cs.map_values(|c: Seq<u8>| decode_utf8(c)));
}


/// A count-prefixed field that decodes from `s` decodes the same way once
/// more bytes follow.
#[verifier::rlimit(50)]
proof fn lemma_len_prefix_stable(s: Seq<u8>, t: Seq<u8>, pos: int, little: bool)
    ensures
        sp_len_bytes(s, pos, little) is Ok ==> sp_len_bytes(s + t, pos, little) == sp_len_bytes(s, pos, little),
        sp_len_string(s, pos, little) is Ok ==> sp_len_string(s + t, pos, little) == sp_len_string(s, pos, little),
{
    let u = s + t;
    if let Ok((n, p)) = sp_u32(s, pos, little) {
        assert(u[pos] == s[pos] && u[pos + 1] == s[pos + 1] && u[pos + 2] == s[pos + 2] && u[pos + 3] == s[pos + 3]);
        if fits(s, p, n as int) {
            assert(u.subrange(p, p + n) =~= s.subrange(p, p + n));
        }
    }
}

#[verifier::rlimit(50)]
proof fn lemma_comments_prefix_stable(s: Seq<u8>, t: Seq<u8>, pos: int, n: int, acc: Seq<Seq<char>>)
    ensures
        sp_comments(s, pos, n, acc) is Ok ==> sp_comments(s + t, pos, n, acc) == sp_comments(s, pos, n, acc),
    decreases n,
{
    if n > 0 {
        lemma_len_prefix_stable(s, t, pos, true);
        if let Ok((c, p)) = sp_len_string(s, pos, true) {
            lemma_comments_prefix_stable(s, t, p, n - 1, acc.push(c));
        }
    }
}

#[verifier::rlimit(50)]
proof fn lemma_block_body_prefix_stable(s: Seq<u8>, t: Seq<u8>, pos: int, block_type: u8, size: u32)
    ensures
        sp_block_body(s, pos, block_type, size) is Ok ==> sp_block_body(s + t, pos, block_type, size) == sp_block_body(
            s,
            pos,
            block_type,
            size,
        ),
{
    reveal(sp_block_body);
    let u = s + t;
    assert(forall|k: int| 0 <= k < s.len() ==> #[trigger] u[k] == s[k]);
    if sp_block_body(s, pos, block_type, size) is Ok {
        if block_type == 0 {
            assert(stream_info_at(u, pos) == stream_info_at(s, pos));
        } else if block_type == 1 {
            assert(u.subrange(pos, pos + size) =~= s.subrange(pos, pos + size));
        } else if block_type == 3 {
            let n = (size / 18) as int;
            assert forall|i: int| 0 <= i < n implies #[trigger] seek_point_at(u, pos + 18 * i) == seek_point_at(s, pos + 18 * i) by {
                assert(0 <= 18 * i && 18 * i + 18 <= 18 * n) by (nonlinear_arith)
                    requires
                        0 <= i < n,
                ;
            }
            assert(Seq::new(n as nat, |i: int| seek_point_at(u, pos + 18 * i)) =~= Seq::new(
                n as nat,
                |i: int| seek_point_at(s, pos + 18 * i),
            ));
        } else if block_type == 4 {
            lemma_len_prefix_stable(s, t, pos, true);
            if let Ok((_, p)) = sp_len_string(s, pos, true) {
                assert(u[p] == s[p] && u[p + 1] == s[p + 1] && u[p + 2] == s[p + 2] && u[p + 3] == s[p + 3]);
                if let Ok((n, q)) = sp_u32(s, p, true) {
                    lemma_comments_prefix_stable(s, t, q, n as int, seq![]);
                }
            }
        } else if block_type == 6 {
            assert(u[pos] == s[pos] && u[pos + 1] == s[pos + 1] && u[pos + 2] == s[pos + 2] && u[pos + 3] == s[pos + 3]);
            let p0 = pos + 4;
            lemma_len_prefix_stable(s, t, p0, false);
            if let Ok((_, p1)) = sp_len_string(s, p0, false) {
                lemma_len_prefix_stable(s, t, p1, false);
                if let Ok((_, p2)) = sp_len_string(s, p1, false) {
                    lemma_len_prefix_stable(s, t, p2 + 16, false);
                }
            }
        }
    }
}

#[verifier::rlimit(50)]
proof fn lemma_blocks_prefix_stable(s: Seq<u8>, t: Seq<u8>, pos: int, acc: Seq<MetadataView>)
    ensures
        sp_blocks(s, pos, acc) is Ok ==> sp_blocks(s + t, pos, acc) == sp_blocks(s, pos, acc),
    decreases s.len() - pos,
{
    let u = s + t;
    if sp_blocks(s, pos, acc) is Ok {
        assert(u[pos] == s[pos] && u[pos + 1] == s[pos + 1] && u[pos + 2] == s[pos + 2] && u[pos + 3] == s[pos + 3]);
        let bt = header_block_type(s, pos);
        let sz = header_size(s, pos);
        lemma_block_body_prefix_stable(s, t, pos + 4, bt, sz);
        lemma_block_body_advances(s, pos + 4, bt, sz);
        if let Ok((m, p)) = sp_block_body(s, pos + 4, bt, sz) {
            if !header_is_last(s, pos) {
                lemma_blocks_prefix_stable(s, t, p, acc.push(m));
            }
        }
    }
}

/// Block iteration reads nothing past the flagged block: a stream that
/// decodes goes on decoding to the same blocks whatever bytes follow it.
#[verifier::rlimit(50)]
pub proof fn lemma_flac_ignores_trailing_bytes(s: Seq<u8>, t: Seq<u8>)
    requires
        spec_flac(s) is Ok,
    ensures
        spec_flac(s + t) == spec_flac(s),
{
    let u = s + t;
    assert(u.subrange(0, 4) =~= s.subrange(0, 4));
    lemma_blocks_prefix_stable(s, t, 4, seq![]);
}

} // verus!
