//! ID3v2 tags: the `ID3` header with its synchsafe size, then frames until
//! that many bytes have been read.
use vstd::prelude::*;
use vstd::utf8::{
    decode_utf8, encode_utf8, encode_utf8_decode_utf8, encode_utf8_valid_utf8, is_ascii_chars,
    is_ascii_chars_encode_utf8, valid_utf8,
};

use crate::bytes::{be32, fits, outcome, read_bytes, read_u32, read_u8, sp_bytes};
use crate::error::ParseError;
use crate::text::{lemma_text_advances, read_text, sp_text, utf8_string, BufferKind};

verus! {

/// An attached picture (`APIC`).
#[derive(Debug)]
pub struct Picture {
    pub encoding: u8,
    pub mime_type: String,
    pub picture_type: u8,
    pub description: String,
    pub picture: Vec<u8>,
}

pub struct PictureView {
    pub encoding: u8,
    pub mime_type: Seq<char>,
    pub picture_type: u8,
    pub description: Seq<char>,
    pub picture: Seq<u8>,
}

impl View for Picture {
    type V = PictureView;

    open spec fn view(&self) -> PictureView {
        PictureView {
            encoding: self.encoding,
            mime_type: self.mime_type@,
            picture_type: self.picture_type,
            description: self.description@,
            picture: self.picture@,
        }
    }
}

/// A unique file identifier (`UFID`).
#[derive(Debug)]
pub struct Ufid {
    pub vendor: String,
    pub ufid: Vec<u8>,
}

pub struct UfidView {
    pub vendor: Seq<char>,
    pub ufid: Seq<u8>,
}

impl View for Ufid {
    type V = UfidView;

    open spec fn view(&self) -> UfidView {
        UfidView { vendor: self.vendor@, ufid: self.ufid@ }
    }
}

/// A comment (`COMM`).
#[derive(Debug)]
pub struct Comment {
    pub encoding: u8,
    pub language: [u8; 3],
    pub description: String,
    pub comment: String,
}

pub struct CommentView {
    pub encoding: u8,
    pub language: Seq<u8>,
    pub description: Seq<char>,
    pub comment: Seq<char>,
}

impl View for Comment {
    type V = CommentView;

    open spec fn view(&self) -> CommentView {
        CommentView {
            encoding: self.encoding,
            language: self.language@,
            description: self.description@,
            comment: self.comment@,
        }
    }
}

/// One frame, by the kind its ID maps to.
#[derive(Debug)]
pub enum Frame {
    /// A text information frame, with the ID it came from.
    TextField { id: String, text: String },
    Picture { picture: Picture },
    Ufid { ufid: Ufid },
    Comment { comment: Comment },
}

pub enum FrameView {
    TextField { id: Seq<char>, text: Seq<char> },
    Picture(PictureView),
    Ufid(UfidView),
    Comment(CommentView),
}

impl View for Frame {
    type V = FrameView;

    open spec fn view(&self) -> FrameView {
        match self {
            Frame::TextField { id, text } => FrameView::TextField { id: id@, text: text@ },
            Frame::Picture { picture } => FrameView::Picture(picture@),
            Frame::Ufid { ufid } => FrameView::Ufid(ufid@),
            Frame::Comment { comment } => FrameView::Comment(comment@),
        }
    }
}

pub open spec fn frames_view(f: Seq<Frame>) -> Seq<FrameView> {
    f.map_values(|x: Frame| x@)
}

/// A decoded ID3v2 tag: its frames in file order.
#[derive(Debug)]
pub struct Id3v2 {
    pub frames: Vec<Frame>,
}

impl View for Id3v2 {
    type V = Seq<FrameView>;

    open spec fn view(&self) -> Seq<FrameView> {
        frames_view(self.frames@)
    }
}

/// The kinds a frame ID maps to.
#[derive(Clone, Copy, Debug, PartialEq, Eq)]
pub enum FrameKind {
    TextField,
    Picture,
    Ufid,
    Comment,
}

// ---------------------------------------------------------------------------
// The format, as spec functions over the bytes and a position in them.

/// A synchsafe integer: four 7-bit groups, most significant first; the top
/// bit of each byte is not part of the value.
pub open spec fn synchsafe_value(b0: int, b1: int, b2: int, b3: int) -> int {
    (b0 % 0x80) * 0x20_0000 + (b1 % 0x80) * 0x4000 + (b2 % 0x80) * 0x80 + b3 % 0x80
}

pub open spec fn tag4(a: u8, b: u8, c: u8, d: u8) -> Seq<u8> {
    seq![a, b, c, d]
}

/// The frame IDs whose frames hold one text value: TIT2, TPE1, TRCK, TALB,
/// TPOS, TDAT, TORY, TYER, TPUB, TMED, TPE2, TSO2, TSOP and TXXX.
pub open spec fn is_text_frame_id(id: Seq<u8>) -> bool {
    id == tag4(0x54, 0x49, 0x54, 0x32) || id == tag4(0x54, 0x50, 0x45, 0x31)
        || id == tag4(0x54, 0x52, 0x43, 0x4b) || id == tag4(0x54, 0x41, 0x4c, 0x42)
        || id == tag4(0x54, 0x50, 0x4f, 0x53) || id == tag4(0x54, 0x44, 0x41, 0x54)
        || id == tag4(0x54, 0x4f, 0x52, 0x59) || id == tag4(0x54, 0x59, 0x45, 0x52)
        || id == tag4(0x54, 0x50, 0x55, 0x42) || id == tag4(0x54, 0x4d, 0x45, 0x44)
        || id == tag4(0x54, 0x50, 0x45, 0x32) || id == tag4(0x54, 0x53, 0x4f, 0x32)
        || id == tag4(0x54, 0x53, 0x4f, 0x50) || id == tag4(0x54, 0x58, 0x58, 0x58)
}

/// The kind a frame ID maps to (`APIC` a picture, `UFID` an identifier,
/// `COMM` a comment); `None` for an ID outside the decoded set.
pub open spec fn spec_frame_kind(id: Seq<u8>) -> Option<FrameKind> {
    if is_text_frame_id(id) {
        Some(FrameKind::TextField)
    } else if id == tag4(0x41, 0x50, 0x49, 0x43) {
        Some(FrameKind::Picture)
    } else if id == tag4(0x55, 0x46, 0x49, 0x44) {
        Some(FrameKind::Ufid)
    } else if id == tag4(0x43, 0x4f, 0x4d, 0x4d) {
        Some(FrameKind::Comment)
    } else {
        None
    }
}

/// ASCII bytes as characters.
pub open spec fn ascii_chars(b: Seq<u8>) -> Seq<char> {
    b.map_values(|x: u8| x as char)
}

/// A text frame body of `size` bytes: an encoding byte, then text filling the rest.
pub open spec fn sp_text_frame(s: Seq<u8>, pos: int, id: Seq<u8>, size: u32) -> Result<(FrameView, int), ParseError> {
    if !fits(s, pos, 1) {
        Err(ParseError::UnexpectedEnd)
    } else if size == 0 {
        Err(ParseError::SizeUnderflow)
    } else {
        match sp_text(s, pos + 1, BufferKind::Sized((size - 1) as u32), s[pos]) {
            Ok((text, p)) => Ok((FrameView::TextField { id: ascii_chars(id), text }, p)),
            Err(e) => Err(e),
        }
    }
}

/// An `APIC` body of `size` bytes: encoding byte, NUL-terminated single-byte
/// MIME type, picture type byte, NUL-terminated description in the frame's
/// encoding, and the picture bytes, which fill what the declared size leaves.
pub open spec fn sp_picture(s: Seq<u8>, pos: int, size: u32) -> Result<(PictureView, int), ParseError> {
    if !fits(s, pos, 1) {
        Err(ParseError::UnexpectedEnd)
    } else {
        let encoding = s[pos];
        match sp_text(s, pos + 1, BufferKind::NullTerminated, 0) {
            Err(e) => Err(e),
            Ok((mime_type, p1)) => if !fits(s, p1, 1) {
                Err(ParseError::UnexpectedEnd)
            } else {
                match sp_text(s, p1 + 1, BufferKind::NullTerminated, encoding) {
                    Err(e) => Err(e),
                    Ok((description, p2)) => if p2 - pos > size {
                        Err(ParseError::SizeUnderflow)
                    } else {
                        match sp_bytes(s, p2, size - (p2 - pos)) {
                            Err(e) => Err(e),
                            Ok((picture, p3)) => Ok((
                                PictureView { encoding, mime_type, picture_type: s[p1], description, picture },
                                p3,
                            )),
                        }
                    },
                }
            },
        }
    }
}

/// A `UFID` body of `size` bytes: NUL-terminated single-byte owner, then the
/// identifier bytes, which fill what the declared size leaves.
pub open spec fn sp_ufid(s: Seq<u8>, pos: int, size: u32) -> Result<(UfidView, int), ParseError> {
    match sp_text(s, pos, BufferKind::NullTerminated, 0) {
        Err(e) => Err(e),
        Ok((vendor, p1)) => if p1 - pos > size {
            Err(ParseError::SizeUnderflow)
        } else {
            match sp_bytes(s, p1, size - (p1 - pos)) {
                Err(e) => Err(e),
                Ok((ufid, p2)) => Ok((UfidView { vendor, ufid }, p2)),
            }
        },
    }
}

/// A `COMM` body of `size` bytes: encoding byte, three-byte language code,
/// NUL-terminated short description, then the comment text, which fills
/// what the declared size leaves; both texts in the frame's encoding.
pub open spec fn sp_comment(s: Seq<u8>, pos: int, size: u32) -> Result<(CommentView, int), ParseError> {
    if !fits(s, pos, 4) {
        Err(ParseError::UnexpectedEnd)
    } else {
        let encoding = s[pos];
        match sp_text(s, pos + 4, BufferKind::NullTerminated, encoding) {
            Err(e) => Err(e),
            Ok((description, p1)) => if p1 - pos > size {
                Err(ParseError::SizeUnderflow)
            } else {
                match sp_text(s, p1, BufferKind::Sized((size - (p1 - pos)) as u32), encoding) {
                    Err(e) => Err(e),
                    Ok((comment, p2)) => Ok((
                        CommentView { encoding, language: s.subrange(pos + 1, pos + 4), description, comment },
                        p2,
                    )),
                }
            },
        }
    }
}

/// A frame body of the given kind and (adjusted) declared size.
pub open spec fn sp_frame_body(s: Seq<u8>, pos: int, kind: FrameKind, id: Seq<u8>, size: u32) -> Result<(FrameView, int), ParseError> {
    match kind {
        FrameKind::TextField => sp_text_frame(s, pos, id, size),
        FrameKind::Picture => match sp_picture(s, pos, size) {
            Ok((v, p)) => Ok((FrameView::Picture(v), p)),
            Err(e) => Err(e),
        },
        FrameKind::Ufid => match sp_ufid(s, pos, size) {
            Ok((v, p)) => Ok((FrameView::Ufid(v), p)),
            Err(e) => Err(e),
        },
        FrameKind::Comment => match sp_comment(s, pos, size) {
            Ok((v, p)) => Ok((FrameView::Comment(v), p)),
            Err(e) => Err(e),
        },
    }
}

/// The bytes that follow a 10-byte frame header: four if the compression
/// flag is set, one each for the encryption and grouping-identity flags.
pub open spec fn frame_extra_len(flags: u8) -> int {
    (if flags >= 0x80 { 4int } else { 0 }) + (if (flags / 0x40) % 2 == 1 { 1int } else { 0 }) + (if (flags / 0x20) % 2 == 1 { 1int } else { 0 })
}

/// One frame at `pos`: the 10-byte header (ID, 32-bit big-endian size, two
/// flag bytes), the extra header bytes its flags call for, and the body,
/// whose declared size does not count those extra bytes.
#[verifier::opaque]
pub open spec fn sp_frame(s: Seq<u8>, pos: int) -> Result<(FrameView, int), ParseError> {
    if !fits(s, pos, 10) {
        Err(ParseError::UnexpectedEnd)
    } else {
        let id = s.subrange(pos, pos + 4);
        let extra = frame_extra_len(s[pos + 9]);
        if !fits(s, pos + 10, extra) {
            Err(ParseError::UnexpectedEnd)
        } else if be32(s, pos + 4) < extra {
            Err(ParseError::SizeUnderflow)
        } else {
            match spec_frame_kind(id) {
                None => Err(ParseError::UnsupportedFrameId { id: [s[pos], s[pos + 1], s[pos + 2], s[pos + 3]] }),
                Some(kind) => sp_frame_body(s, pos + 10 + extra, kind, id, (be32(s, pos + 4) - extra) as u32),
            }
        }
    }
}

/// The frames from `pos` on, after those in `acc`, while fewer than `size`
/// bytes have been read since the end of the 10-byte tag header.
pub open spec fn sp_frames(s: Seq<u8>, pos: int, size: int, acc: Seq<FrameView>) -> Result<(Seq<FrameView>, int), ParseError>
    decreases s.len() - pos,
    via frames_decrease
{
    if pos - 10 >= size {
        Ok((acc, pos))
    } else {
        match sp_frame(s, pos) {
            Err(e) => Err(e),
            Ok((f, p)) => sp_frames(s, p, size, acc.push(f)),
        }
    }
}

#[via_fn]
proof fn frames_decrease(s: Seq<u8>, pos: int, size: int, acc: Seq<FrameView>) {
    lemma_frame_advances(s, pos);
}

/// The declared tag size: the synchsafe integer at bytes 6 to 9.
pub open spec fn tag_size(s: Seq<u8>) -> int {
    synchsafe_value(s[6] as int, s[7] as int, s[8] as int, s[9] as int)
}

/// The unsynchronisation flag: the top bit of the header's flags byte.
pub open spec fn unsynchronisation(s: Seq<u8>) -> bool {
    s[5] >= 0x80
}

/// The extended-header flag: the second bit of the header's flags byte.
pub open spec fn extended_header(s: Seq<u8>) -> bool {
    (s[5] / 0x40) % 2 == 1
}

pub open spec fn id3_magic() -> Seq<u8> {
    seq![0x49u8, 0x44u8, 0x33u8]
}

/// What follows the magic: the rest of the 10-byte header, checked for
/// unsupported flags, then the frames it declares.
pub open spec fn sp_tag_body(s: Seq<u8>) -> Result<(Seq<FrameView>, int), ParseError> {
    if s.len() < 10 {
        Err(ParseError::UnexpectedEnd)
    } else if unsynchronisation(s) {
        Err(ParseError::UnsynchronisationUnsupported)
    } else if extended_header(s) {
        Err(ParseError::ExtendedHeaderUnsupported)
    } else {
        sp_frames(s, 10, tag_size(s), seq![])
    }
}

/// A whole ID3v2 tag: `ID3`, major and minor version, flags, synchsafe
/// size, then frames.
pub open spec fn spec_id3v2(s: Seq<u8>) -> Result<Seq<FrameView>, ParseError> {
    if s.len() < 3 {
        Err(ParseError::UnexpectedEnd)
    } else if s.subrange(0, 3) != id3_magic() {
        Err(ParseError::BadMagic)
    } else {
        match sp_tag_body(s) {
            Ok((frames, _)) => Ok(frames),
            Err(e) => Err(e),
        }
    }
}

#[verifier::rlimit(50)]
proof fn lemma_frame_advances(s: Seq<u8>, pos: int)
    ensures
        sp_frame(s, pos) matches Ok((_, p)) ==> pos < p <= s.len(),
{
    reveal(sp_frame);
    if fits(s, pos, 10) {
        let b = pos + 10 + frame_extra_len(s[pos + 9]);
        lemma_text_advances(s, b + 1, BufferKind::NullTerminated, 0);
        if let Ok((_, p1)) = sp_text(s, b + 1, BufferKind::NullTerminated, 0) {
            lemma_text_advances(s, p1 + 1, BufferKind::NullTerminated, s[b]);
        }
        lemma_text_advances(s, b, BufferKind::NullTerminated, 0);
        lemma_text_advances(s, b + 4, BufferKind::NullTerminated, s[b]);
        if let Ok((_, p1)) = sp_text(s, b + 4, BufferKind::NullTerminated, s[b]) {
            if p1 - b <= be32(s, pos + 4) - frame_extra_len(s[pos + 9]) {
                lemma_text_advances(s, p1, BufferKind::Sized((be32(s, pos + 4) - frame_extra_len(s[pos + 9]) - (p1 - b)) as u32), s[b]);
            }
        }
        if be32(s, pos + 4) - frame_extra_len(s[pos + 9]) > 0 {
            lemma_text_advances(s, b + 1, BufferKind::Sized((be32(s, pos + 4) - frame_extra_len(s[pos + 9]) - 1) as u32), s[b]);
        }
    }
}


/// Bytes below 0x80 are valid UTF-8, one character each.
#[verifier::rlimit(50)]
proof fn lemma_ascii_utf8(b: Seq<u8>)
    requires
        forall|i: int| 0 <= i < b.len() ==> b[i] < 0x80,
    ensures
        valid_utf8(b),
        decode_utf8(b) == ascii_chars(b),
{
    let c = ascii_chars(b);
    assert(is_ascii_chars(c));
    is_ascii_chars_encode_utf8(c);
    assert(encode_utf8(c) =~= b);
    encode_utf8_valid_utf8(c);
    encode_utf8_decode_utf8(c);
}

// ---------------------------------------------------------------------------
// The decoders.

/// Decodes a synchsafe 32-bit field: the low seven bits of each of its four
/// big-endian bytes, most significant first.
pub fn extract_28bit_size(raw: u32) -> (r: u32)
    ensures
        r == synchsafe_value(raw as int / 0x100_0000, (raw as int / 0x1_0000) % 0x100, (raw as int / 0x100) % 0x100, raw as int % 0x100),
        r < 0x1000_0000,
{
    let b0 = raw / 0x100_0000;
    let b1 = (raw / 0x1_0000) % 0x100;
    let b2 = (raw / 0x100) % 0x100;
    let b3 = raw % 0x100;
    (b0 % 0x80) * 0x20_0000 + (b1 % 0x80) * 0x4000 + (b2 % 0x80) * 0x80 + b3 % 0x80
}

/// Whether the four bytes at `pos` are `a b c d`.
fn id_is(data: &[u8], pos: usize, a: u8, b: u8, c: u8, d: u8) -> (r: bool)
    requires
        fits(data@, pos as int, 4),
    ensures
        r == (data@.subrange(pos as int, pos + 4) == tag4(a, b, c, d)),
{
    let r = data[pos] == a && data[pos + 1] == b && data[pos + 2] == c && data[pos + 3] == d;
    proof {
        let t = data@.subrange(pos as int, pos + 4);
        if r {
            assert(t =~= tag4(a, b, c, d));
        } else if t == tag4(a, b, c, d) {
            assert(t[0] == a && t[1] == b && t[2] == c && t[3] == d);
        }
    }
    r
}

/// The kind that the frame ID at `pos` maps to, if any.
pub fn frame_kind_at(data: &[u8], pos: usize) -> (r: Option<FrameKind>)
    requires
        fits(data@, pos as int, 4),
    ensures
        r == spec_frame_kind(data@.subrange(pos as int, pos + 4)),
{
    if id_is(data, pos, 0x54, 0x49, 0x54, 0x32)
        || id_is(data, pos, 0x54, 0x50, 0x45, 0x31)
        || id_is(data, pos, 0x54, 0x52, 0x43, 0x4b)
        || id_is(data, pos, 0x54, 0x41, 0x4c, 0x42)
        || id_is(data, pos, 0x54, 0x50, 0x4f, 0x53)
        || id_is(data, pos, 0x54, 0x44, 0x41, 0x54)
        || id_is(data, pos, 0x54, 0x4f, 0x52, 0x59)
        || id_is(data, pos, 0x54, 0x59, 0x45, 0x52)
        || id_is(data, pos, 0x54, 0x50, 0x55, 0x42)
        || id_is(data, pos, 0x54, 0x4d, 0x45, 0x44)
        || id_is(data, pos, 0x54, 0x50, 0x45, 0x32)
        || id_is(data, pos, 0x54, 0x53, 0x4f, 0x32)
        || id_is(data, pos, 0x54, 0x53, 0x4f, 0x50)
        || id_is(data, pos, 0x54, 0x58, 0x58, 0x58)
    {
        Some(FrameKind::TextField)
    } else if id_is(data, pos, 0x41, 0x50, 0x49, 0x43) {
        Some(FrameKind::Picture)
    } else if id_is(data, pos, 0x55, 0x46, 0x49, 0x44) {
        Some(FrameKind::Ufid)
    } else if id_is(data, pos, 0x43, 0x4f, 0x4d, 0x4d) {
        Some(FrameKind::Comment)
    } else {
        None
    }
}

/// The frame ID at `pos` as a string, for an ID of a text frame.
fn text_frame_id(data: &[u8], pos: usize) -> (r: String)
    requires
        fits(data@, pos as int, 4),
        is_text_frame_id(data@.subrange(pos as int, pos + 4)),
    ensures
        r@ == ascii_chars(data@.subrange(pos as int, pos + 4)),
{
    let ghost id = data@.subrange(pos as int, pos + 4);
    assert(forall|i: int| 0 <= i < 4 ==> id[i] < 0x80);
    proof {
        lemma_ascii_utf8(id);
    }
    // Neither fallback below is taken: the four bytes lie inside the buffer
    // and are ASCII, which the contract records.
    let bytes = match read_bytes(data, pos, 4) {
        Ok((b, _)) => b,
        Err(_) => return String::new(),
    };
    match utf8_string(bytes) {
        Some(s) => s,
        None => String::new(),
    }
}

impl Picture {
    /// Reads an `APIC` body of `size` bytes at `pos`.
    pub fn read(data: &[u8], pos: usize, size: u32) -> (r: Result<(Picture, usize), ParseError>)
        ensures
            outcome(r) == sp_picture(data@, pos as int, size),
    {
        let (encoding, p) = match read_u8(data, pos) {
            Ok(x) => x,
            Err(e) => return Err(e),
        };
        proof {
            lemma_text_advances(data@, p as int, BufferKind::NullTerminated, 0);
        }
        let (mime_type, p) = match read_text(data, p, BufferKind::NullTerminated, 0) {
            Ok(x) => x,
            Err(e) => return Err(e),
        };
        let (picture_type, p) = match read_u8(data, p) {
            Ok(x) => x,
            Err(e) => return Err(e),
        };
        proof {
            lemma_text_advances(data@, p as int, BufferKind::NullTerminated, encoding);
        }
        let (description, p) = match read_text(data, p, BufferKind::NullTerminated, encoding) {
            Ok(x) => x,
            Err(e) => return Err(e),
        };
        let consumed = p - pos;
        if consumed as u64 > size as u64 {
            return Err(ParseError::SizeUnderflow);
        }
        let (picture, p) = match read_bytes(data, p, size as usize - consumed) {
            Ok(x) => x,
            Err(e) => return Err(e),
        };
        Ok((Picture { encoding, mime_type, picture_type, description, picture }, p))
    }
}

impl Ufid {
    /// Reads a `UFID` body of `size` bytes at `pos`.
    pub fn read(data: &[u8], pos: usize, size: u32) -> (r: Result<(Ufid, usize), ParseError>)
        ensures
            outcome(r) == sp_ufid(data@, pos as int, size),
    {
        proof {
            lemma_text_advances(data@, pos as int, BufferKind::NullTerminated, 0);
        }
        let (vendor, p) = match read_text(data, pos, BufferKind::NullTerminated, 0) {
            Ok(x) => x,
            Err(e) => return Err(e),
        };
        let consumed = p - pos;
        if consumed as u64 > size as u64 {
            return Err(ParseError::SizeUnderflow);
        }
        let (ufid, p) = match read_bytes(data, p, size as usize - consumed) {
            Ok(x) => x,
            Err(e) => return Err(e),
        };
        Ok((Ufid { vendor, ufid }, p))
    }
}

impl Comment {
    /// Reads a `COMM` body of `size` bytes at `pos`.
    pub fn read(data: &[u8], pos: usize, size: u32) -> (r: Result<(Comment, usize), ParseError>)
        ensures
            outcome(r) == sp_comment(data@, pos as int, size),
    {
        if !(pos <= data.len() && 4 <= data.len() - pos) {
            return Err(ParseError::UnexpectedEnd);
        }
        let encoding = data[pos];
        let language: [u8; 3] = [data[pos + 1], data[pos + 2], data[pos + 3]];
        assert(language@ =~= data@.subrange(pos + 1, pos + 4));
        proof {
            lemma_text_advances(data@, pos + 4, BufferKind::NullTerminated, encoding);
        }
        let (description, p) = match read_text(data, pos + 4, BufferKind::NullTerminated, encoding) {
            Ok(x) => x,
            Err(e) => return Err(e),
        };
        let consumed = p - pos;
        if consumed as u64 > size as u64 {
            return Err(ParseError::SizeUnderflow);
        }
        let rest = size - consumed as u32;
        let (comment, p) = match read_text(data, p, BufferKind::Sized(rest), encoding) {
            Ok(x) => x,
            Err(e) => return Err(e),
        };
        Ok((Comment { encoding, language, description, comment }, p))
    }
}

impl Frame {
    /// Reads a frame body of the given kind and (adjusted) declared size at
    /// `pos`; `id_pos` is where the frame's ID stands.
    pub fn read(data: &[u8], pos: usize, kind: FrameKind, id_pos: usize, size: u32) -> (r: Result<(Frame, usize), ParseError>)
        requires
            fits(data@, id_pos as int, 4),
            spec_frame_kind(data@.subrange(id_pos as int, id_pos + 4)) == Some(kind),
        ensures
            outcome(r) == sp_frame_body(data@, pos as int, kind, data@.subrange(id_pos as int, id_pos + 4), size),
    {
        match kind {
            FrameKind::TextField => {
                let (encoding, p) = match read_u8(data, pos) {
                    Ok(x) => x,
                    Err(e) => return Err(e),
                };
                if size == 0 {
                    return Err(ParseError::SizeUnderflow);
                }
                let (text, p) = match read_text(data, p, BufferKind::Sized(size - 1), encoding) {
                    Ok(x) => x,
                    Err(e) => return Err(e),
                };
                let id = text_frame_id(data, id_pos);
                Ok((Frame::TextField { id, text }, p))
            },
            FrameKind::Picture => match Picture::read(data, pos, size) {
                Ok((picture, p)) => Ok((Frame::Picture { picture }, p)),
                Err(e) => Err(e),
            },
            FrameKind::Ufid => match Ufid::read(data, pos, size) {
                Ok((ufid, p)) => Ok((Frame::Ufid { ufid }, p)),
                Err(e) => Err(e),
            },
            FrameKind::Comment => match Comment::read(data, pos, size) {
                Ok((comment, p)) => Ok((Frame::Comment { comment }, p)),
                Err(e) => Err(e),
            },
        }
    }
}


/// Reads one frame at `pos`: header, extra header bytes, body.
pub fn read_frame(data: &[u8], pos: usize) -> (r: Result<(Frame, usize), ParseError>)
    ensures
        outcome(r) == sp_frame(data@, pos as int),
{
    reveal(sp_frame);
    if !(pos <= data.len() && 10 <= data.len() - pos) {
        return Err(ParseError::UnexpectedEnd);
    }
    let (declared, _) = match read_u32(data, pos + 4, false) {
        Ok(x) => x,
        Err(e) => return Err(e),
    };
    let flags = data[pos + 9];
    let compression = flags >= 0x80;
    let encryption = (flags / 0x40) % 2 == 1;
    let grouping_identity = (flags / 0x20) % 2 == 1;
    let extra: usize = (if compression { 4 } else { 0 }) + (if encryption { 1 } else { 0 }) + (if grouping_identity { 1 } else { 0 });
    assert(extra == frame_extra_len(flags));
    if extra > data.len() - (pos + 10) {
        return Err(ParseError::UnexpectedEnd);
    }
    if (declared as u64) < (extra as u64) {
        return Err(ParseError::SizeUnderflow);
    }
    let size = declared - extra as u32;
    let kind = match frame_kind_at(data, pos) {
        Some(k) => k,
        None => {
            let id: [u8; 4] = [data[pos], data[pos + 1], data[pos + 2], data[pos + 3]];
            return Err(ParseError::UnsupportedFrameId { id });
        },
    };
    Frame::read(data, pos + 10 + extra, kind, pos, size)
}

/// The four bytes of a big-endian 32-bit value, recovered by division.
proof fn lemma_be32_bytes(b0: u32, b1: u32, b2: u32, b3: u32)
    by (bit_vector)
    requires
        b0 < 0x100,
        b1 < 0x100,
        b2 < 0x100,
        b3 < 0x100,
    ensures
        (b0 * 0x100_0000 + b1 * 0x1_0000 + b2 * 0x100 + b3) / 0x100_0000 == b0,
        ((b0 * 0x100_0000 + b1 * 0x1_0000 + b2 * 0x100 + b3) / 0x1_0000) % 0x100 == b1,
        ((b0 * 0x100_0000 + b1 * 0x1_0000 + b2 * 0x100 + b3) / 0x100) % 0x100 == b2,
        (b0 * 0x100_0000 + b1 * 0x1_0000 + b2 * 0x100 + b3) % 0x100 == b3,
{
}

/// Reads frames from `pos` on, after those in `frames`, while fewer than
/// `size` bytes have been read since the end of the 10-byte tag header.
fn read_frames(data: &[u8], pos: usize, size: u32, start: Vec<Frame>) -> (r: Result<(Vec<Frame>, usize), ParseError>)
    requires
        10 <= pos,
    ensures
        match r {
            Ok((v, p)) => sp_frames(data@, pos as int, size as int, frames_view(start@)) == Ok::<(Seq<FrameView>, int), ParseError>((frames_view(v@), p as int)),
            Err(e) => sp_frames(data@, pos as int, size as int, frames_view(start@)) == Err::<(Seq<FrameView>, int), ParseError>(e),
        },
{
    let ghost first = start@;
    let mut frames = start;
    let mut p: usize = pos;
    while ((p - 10) as u64) < (size as u64)
        invariant
            10 <= p,
            first == start@,
            sp_frames(data@, p as int, size as int, frames_view(frames@)) == sp_frames(data@, pos as int, size as int, frames_view(first)),
        decreases data.len() - p,
    {
        proof {
            lemma_frame_advances(data@, p as int);
        }
        let (f, next) = match read_frame(data, p) {
            Ok(x) => x,
            Err(e) => return Err(e),
        };
        let ghost before = frames@;
        frames.push(f);
        assert(frames_view(frames@) =~= frames_view(before).push(f@));
        p = next;
    }
    Ok((frames, p))
}

impl Frame {
    /// Reads the rest of the tag header after the magic, rejects the
    /// unsupported flags, then reads frames until the declared tag size has
    /// been read.
    pub fn read_vec(data: &[u8]) -> (r: Result<(Vec<Frame>, usize), ParseError>)
        ensures
            match r {
                Ok((v, p)) => sp_tag_body(data@) == Ok::<(Seq<FrameView>, int), ParseError>((frames_view(v@), p as int)),
                Err(e) => sp_tag_body(data@) == Err::<(Seq<FrameView>, int), ParseError>(e),
            },
    {
        if data.len() < 10 {
            return Err(ParseError::UnexpectedEnd);
        }
        let flags = data[5];
        if flags >= 0x80 {
            return Err(ParseError::UnsynchronisationUnsupported);
        }
        if (flags / 0x40) % 2 == 1 {
            return Err(ParseError::ExtendedHeaderUnsupported);
        }
        let (raw, _) = match read_u32(data, 6, false) {
            Ok(x) => x,
            Err(e) => return Err(e),
        };
        proof {
            lemma_be32_bytes(data@[6] as u32, data@[7] as u32, data@[8] as u32, data@[9] as u32);
        }
        let size = extract_28bit_size(raw);
        assert(size == tag_size(data@));
        let frames: Vec<Frame> = Vec::new();
        assert(frames_view(frames@) =~= seq![]);
        read_frames(data, 10, size, frames)
    }
}

impl Id3v2 {
    /// Decodes an ID3v2 tag from the bytes of a whole file.
    pub fn from_bytes(data: &[u8]) -> (r: Result<Id3v2, ParseError>)
        ensures
            match r {
                Ok(t) => spec_id3v2(data@) == Ok::<Seq<FrameView>, ParseError>(t@),
                Err(e) => spec_id3v2(data@) == Err::<Seq<FrameView>, ParseError>(e),
            },
    {
        if data.len() < 3 {
            return Err(ParseError::UnexpectedEnd);
        }
        if !(data[0] == 0x49 && data[1] == 0x44 && data[2] == 0x33) {
            proof {
                if data@.subrange(0, 3) == id3_magic() {
                    assert(data@.subrange(0, 3)[0] == data@[0]);
                    assert(data@.subrange(0, 3)[1] == data@[1]);
                    assert(data@.subrange(0, 3)[2] == data@[2]);
                }
            }
            return Err(ParseError::BadMagic);
        }
        assert(data@.subrange(0, 3) =~= id3_magic());
        match Frame::read_vec(data) {
            Ok((frames, _)) => Ok(Id3v2 { frames }),
            Err(e) => Err(e),
        }
    }
}


// ---------------------------------------------------------------------------
// Laws.

/// With every byte's top bit clear, a synchsafe field decodes to the four
/// 7-bit groups side by side: `b0 << 21 | b1 << 14 | b2 << 7 | b3`, where
/// the field is the big-endian 32-bit value of `b0 b1 b2 b3`.
#[verifier::rlimit(50)]
pub proof fn lemma_synchsafe_decode(b0: u8, b1: u8, b2: u8, b3: u8)
    requires
        b0 < 0x80,
        b1 < 0x80,
        b2 < 0x80,
        b3 < 0x80,
    ensures
        ({
            let raw = b0 * 0x100_0000 + b1 * 0x1_0000 + b2 * 0x100 + b3;
            synchsafe_value(raw / 0x100_0000, (raw / 0x1_0000) % 0x100, (raw / 0x100) % 0x100, raw % 0x100)
                == (((b0 as u32) << 21u32) | ((b1 as u32) << 14u32) | ((b2 as u32) << 7u32) | (b3 as u32))
        }),
{
    lemma_be32_bytes(b0 as u32, b1 as u32, b2 as u32, b3 as u32);
    lemma_synchsafe_or(b0 as u32, b1 as u32, b2 as u32, b3 as u32);
}

proof fn lemma_synchsafe_or(b0: u32, b1: u32, b2: u32, b3: u32)
    by (bit_vector)
    requires
        b0 < 0x80,
        b1 < 0x80,
        b2 < 0x80,
        b3 < 0x80,
    ensures
        (b0 % 0x80) * 0x20_0000 + (b1 % 0x80) * 0x4000 + (b2 % 0x80) * 0x80 + b3 % 0x80
            == ((b0 << 21u32) | (b1 << 14u32) | (b2 << 7u32) | b3),
{
}

/// A tag whose header sets the unsynchronisation flag fails with that error,
/// whatever its body holds.
pub proof fn lemma_unsynchronisation_rejected(s: Seq<u8>)
    requires
        s.len() >= 10,
        s.subrange(0, 3) == id3_magic(),
        s[5] >= 0x80,
    ensures
        spec_id3v2(s) == Err::<Seq<FrameView>, ParseError>(ParseError::UnsynchronisationUnsupported),
{
}

/// A frame whose header is whole but whose ID is outside the decoded set
/// fails the whole frame sequence with that ID, rather than being skipped.
#[verifier::rlimit(50)]
pub proof fn lemma_unknown_frame_fails(s: Seq<u8>, pos: int, size: int, acc: Seq<FrameView>)
    requires
        pos - 10 < size,
        fits(s, pos, 10),
        fits(s, pos + 10, frame_extra_len(s[pos + 9])),
        be32(s, pos + 4) >= frame_extra_len(s[pos + 9]),
        spec_frame_kind(s.subrange(pos, pos + 4)) is None,
    ensures
        sp_frames(s, pos, size, acc) == Err::<(Seq<FrameView>, int), ParseError>(
            ParseError::UnsupportedFrameId { id: [s[pos], s[pos + 1], s[pos + 2], s[pos + 3]] },
        ),
{
    reveal(sp_frame);
}

/// Where an `APIC` body's leading fields (encoding byte, MIME type, picture
/// type byte, description) end.
pub open spec fn picture_strings_end(s: Seq<u8>, pos: int) -> Option<int> {
    if !fits(s, pos, 1) {
        None
    } else {
        match sp_text(s, pos + 1, BufferKind::NullTerminated, 0) {
            Err(_) => None,
            Ok((_, p1)) => if !fits(s, p1, 1) {
                None
            } else {
                match sp_text(s, p1 + 1, BufferKind::NullTerminated, s[pos]) {
                    Err(_) => None,
                    Ok((_, p2)) => Some(p2),
                }
            },
        }
    }
}

/// Picture byte accounting: when the leading fields of an `APIC` body of
/// declared size `size` take `k` bytes, the picture is exactly the next
/// `size - k` bytes and the body ends exactly `size` bytes in; `k` above
/// `size` is an error, and so is a buffer that ends before those bytes.
#[verifier::rlimit(50)]
pub proof fn lemma_picture_accounting(s: Seq<u8>, pos: int, size: u32)
    requires
        0 <= pos,
    ensures
        picture_strings_end(s, pos) matches Some(e) ==> {
            let k = e - pos;
            if k > size {
                sp_picture(s, pos, size) == Err::<(PictureView, int), ParseError>(ParseError::SizeUnderflow)
            } else if pos + size > s.len() {
                sp_picture(s, pos, size) == Err::<(PictureView, int), ParseError>(ParseError::UnexpectedEnd)
            } else {
                sp_picture(s, pos, size) matches Ok((v, p)) && p == pos + size
                    && v.picture == s.subrange(e, pos + size) && v.picture.len() == size - k
            }
        },
{
    if let Some(e) = picture_strings_end(s, pos) {
        lemma_text_advances(s, pos + 1, BufferKind::NullTerminated, 0);
        if let Ok((_, p1)) = sp_text(s, pos + 1, BufferKind::NullTerminated, 0) {
            lemma_text_advances(s, p1 + 1, BufferKind::NullTerminated, s[pos]);
        }
    }
}


/// Frames in a row: where the frame at each of `starts` lies before the
/// declared size runs out and decodes to the matching entry of `fs`, ending
/// where the next one starts (the last one at `end`), the frame sequence
/// from the first of them reads those frames in file order and goes on at `end`.
#[verifier::rlimit(50)]
pub proof fn lemma_frames_in_file_order(s: Seq<u8>, starts: Seq<int>, fs: Seq<FrameView>, end: int, size: int, acc: Seq<FrameView>)
    requires
        starts.len() == fs.len(),
        forall|i: int|
            0 <= i < starts.len() ==> #[trigger] starts[i] - 10 < size && sp_frame(s, starts[i]) == Ok::<(FrameView, int), ParseError>(
                (fs[i], if i + 1 < starts.len() { starts[i + 1] } else { end }),
            ),
    ensures
        sp_frames(s, if starts.len() > 0 { starts[0] } else { end }, size, acc) == sp_frames(s, end, size, acc + fs),
    decreases starts.len(),
{
    if starts.len() == 0 {
        assert(acc + fs =~= acc);
    } else {
        let rest = starts.drop_first();
        let rfs = fs.drop_first();
        assert(starts[0] - 10 < size);
        assert forall|i: int|
            0 <= i < rest.len() implies #[trigger] rest[i] - 10 < size && sp_frame(s, rest[i]) == Ok::<(FrameView, int), ParseError>(
                (rfs[i], if i + 1 < rest.len() { rest[i + 1] } else { end }),
            ) by {
            assert(rest[i] == starts[i + 1]);
            assert(starts[i + 1] - 10 < size);
        }
        lemma_frames_in_file_order(s, rest, rfs, end, size, acc.push(fs[0]));
        assert(acc.push(fs[0]) + rfs =~= acc + fs);
    }
}

/// A tag whose frames, read from the end of the header, come to a frame
/// with a whole header and an ID outside the decoded set before the
/// declared size is read fails with that ID: the frame is not skipped and
/// no frames are returned.
#[verifier::rlimit(50)]
pub proof fn lemma_id3v2_unknown_frame_fails(s: Seq<u8>, starts: Seq<int>, fs: Seq<FrameView>, bad: int)
    requires
        s.len() >= 10,
        s.subrange(0, 3) == id3_magic(),
        !unsynchronisation(s),
        !extended_header(s),
        starts.len() == fs.len(),
        (if starts.len() > 0 { starts[0] } else { bad }) == 10,
        forall|i: int|
            0 <= i < starts.len() ==> #[trigger] starts[i] - 10 < tag_size(s) && sp_frame(s, starts[i]) == Ok::<(FrameView, int), ParseError>(
                (fs[i], if i + 1 < starts.len() { starts[i + 1] } else { bad }),
            ),
        bad - 10 < tag_size(s),
        fits(s, bad, 10),
        fits(s, bad + 10, frame_extra_len(s[bad + 9])),
        be32(s, bad + 4) >= frame_extra_len(s[bad + 9]),
        spec_frame_kind(s.subrange(bad, bad + 4)) is None,
    ensures
        spec_id3v2(s) == Err::<Seq<FrameView>, ParseError>(
            ParseError::UnsupportedFrameId { id: [s[bad], s[bad + 1], s[bad + 2], s[bad + 3]] },
        ),
{
    lemma_frames_in_file_order(s, starts, fs, bad, tag_size(s), seq![]);
    lemma_unknown_frame_fails(s, bad, tag_size(s), fs);
}


/// Picture byte accounting for a whole `APIC` frame with no extra header
/// bytes and declared size `S`: when the body's leading fields take `k`
/// bytes, `k` above `S` is an error, a buffer that ends within the frame is
/// an error, and otherwise the picture is exactly the next `S - k` bytes, the
/// frame ends exactly `10 + S` bytes after its start, and the frame sequence
/// goes on with the next header right there.
#[verifier::rlimit(50)]
pub proof fn lemma_apic_frame_accounting(s: Seq<u8>, pos: int, size: int, acc: Seq<FrameView>)
    requires
        0 <= pos,
        fits(s, pos, 10),
        s.subrange(pos, pos + 4) == tag4(0x41, 0x50, 0x49, 0x43),
        frame_extra_len(s[pos + 9]) == 0,
    ensures
        ({
            let b = pos + 10;
            let declared = be32(s, pos + 4);
            picture_strings_end(s, b) matches Some(e) ==> {
                let k = e - b;
                if k > declared {
                    sp_frame(s, pos) == Err::<(FrameView, int), ParseError>(ParseError::SizeUnderflow)
                } else if b + declared > s.len() {
                    sp_frame(s, pos) == Err::<(FrameView, int), ParseError>(ParseError::UnexpectedEnd)
                } else {
                    sp_frame(s, pos) matches Ok((FrameView::Picture(v), p)) && p == b + declared
                        && v.picture == s.subrange(e, b + declared) && v.picture.len() == declared - k
                        && (pos - 10 < size ==> sp_frames(s, pos, size, acc) == sp_frames(
                        s,
                        b + declared,
                        size,
                        acc.push(FrameView::Picture(v)),
                    ))
                }
            }
        }),
{
    reveal(sp_frame);
    let id = s.subrange(pos, pos + 4);
    assert(id[0] == 0x41);
    assert(!is_text_frame_id(id));
    assert(spec_frame_kind(id) == Some(FrameKind::Picture));
    lemma_picture_accounting(s, pos + 10, be32(s, pos + 4) as u32);
}

} // verus!
