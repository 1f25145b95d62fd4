//! Text fields: the two termination policies (byte count or NUL sentinel)
//! and the two encodings (single-byte UTF-8, or UTF-16 after a byte-order
//! mark), down to a string with trailing NUL characters removed.
use vstd::prelude::*;
use vstd::utf8::{decode_utf8, valid_utf8};

use crate::bytes::{field, fits, outcome, read_bytes, read_u32, sp_bytes, sp_u32};
use crate::error::ParseError;

verus! {

/// How far a text field runs.
#[derive(Clone, Copy, Debug, PartialEq, Eq)]
pub enum BufferKind {
    /// Up to and including the first zero unit, which is not part of the text.
    NullTerminated,
    /// Exactly this many bytes.
    Sized(u32),
}

impl BufferKind {
    /// The policy for the 16-bit units that follow a two-byte byte-order mark:
    /// a byte count becomes a unit count less the one slot the mark took.
    /// `None` where that count would fall below zero.
    pub fn ucs2_adjusted(self) -> (r: Option<BufferKind>)
        ensures
            r == spec_ucs2_adjusted(self),
    {
        match self {
            BufferKind::NullTerminated => Some(BufferKind::NullTerminated),
            BufferKind::Sized(size) => {
                if size / 2 >= 1 {
                    Some(BufferKind::Sized(size / 2 - 1))
                } else {
                    None
                }
            },
        }
    }
}

pub open spec fn spec_ucs2_adjusted(kind: BufferKind) -> Option<BufferKind> {
    match kind {
        BufferKind::NullTerminated => Some(BufferKind::NullTerminated),
        BufferKind::Sized(size) => if size / 2 >= 1 {
            Some(BufferKind::Sized((size / 2 - 1) as u32))
        } else {
            None
        },
    }
}

/// `b` without its trailing zero bytes.
pub open spec fn trim_zeros(b: Seq<u8>) -> Seq<u8>
    decreases b.len(),
{
    if b.len() > 0 && b.last() == 0 {
        trim_zeros(b.drop_last())
    } else {
        b
    }
}

/// The text that UTF-8 bytes carry once trailing NULs are dropped. A zero byte
/// in UTF-8 only ever encodes NUL, so dropping trailing zero bytes before the
/// decoding drops exactly the trailing NUL characters after it.
pub open spec fn text_of_utf8(b: Seq<u8>) -> Result<Seq<char>, ParseError> {
    if valid_utf8(trim_zeros(b)) {
        Ok(decode_utf8(trim_zeros(b)))
    } else {
        Err(ParseError::InvalidText)
    }
}

/// A high (leading) surrogate: D800 to DBFF.
pub open spec fn is_high_surrogate(u: u16) -> bool {
    0xD800 <= u <= 0xDBFF
}

/// A low (trailing) surrogate: DC00 to DFFF.
pub open spec fn is_low_surrogate(u: u16) -> bool {
    0xDC00 <= u <= 0xDFFF
}

/// The character a high-low surrogate pair stands for.
pub open spec fn surrogate_pair_char(hi: u16, lo: u16) -> char {
    (0x1_0000 + (hi - 0xD800) * 0x400 + (lo - 0xDC00)) as u32 as char
}

/// The characters that UTF-16 units encode: a unit outside the surrogate
/// range is its own character, a high surrogate followed by a low one is one
/// character, and any other surrogate makes the sequence invalid (`None`).
pub open spec fn decode_utf16(u: Seq<u16>) -> Option<Seq<char>>
    decreases u.len(),
{
    if u.len() == 0 {
        Some(seq![])
    } else if is_high_surrogate(u[0]) {
        if u.len() >= 2 && is_low_surrogate(u[1]) {
            match decode_utf16(u.subrange(2, u.len() as int)) {
                Some(rest) => Some(seq![surrogate_pair_char(u[0], u[1])] + rest),
                None => None,
            }
        } else {
            None
        }
    } else if is_low_surrogate(u[0]) {
        None
    } else {
        match decode_utf16(u.subrange(1, u.len() as int)) {
            Some(rest) => Some(seq![u[0] as u32 as char] + rest),
            None => None,
        }
    }
}

/// `u` without its trailing zero units.
pub open spec fn trim_zero_units(u: Seq<u16>) -> Seq<u16>
    decreases u.len(),
{
    if u.len() > 0 && u.last() == 0 {
        trim_zero_units(u.drop_last())
    } else {
        u
    }
}

/// The text that UTF-16 units carry once trailing NULs are dropped. A zero
/// unit only ever encodes NUL, and cannot complete a surrogate pair, so
/// dropping trailing zero units before the decoding drops exactly the
/// trailing NUL characters after it.
pub open spec fn text_of_utf16(u: Seq<u16>) -> Result<Seq<char>, ParseError> {
    match decode_utf16(trim_zero_units(u)) {
        Some(t) => Ok(t),
        None => Err(ParseError::InvalidText),
    }
}

/// A 16-bit unit at `j`, in the given byte order.
pub open spec fn unit16(s: Seq<u8>, j: int, little: bool) -> u16 {
    if little {
        (s[j] + s[j + 1] * 0x100) as u16
    } else {
        (s[j] * 0x100 + s[j + 1]) as u16
    }
}

/// Scanning at `j` for the zero byte that ends the text begun at `start`.
pub open spec fn scan_nul8(s: Seq<u8>, start: int, j: int) -> Result<(Seq<u8>, int), ParseError>
    decreases s.len() - j,
{
    if !fits(s, j, 1) {
        Err(ParseError::UnexpectedEnd)
    } else if s[j] == 0 {
        Ok((s.subrange(start, j), j + 1))
    } else {
        scan_nul8(s, start, j + 1)
    }
}

/// Scanning at `j` for the zero unit that ends the units `acc` gathered so far.
pub open spec fn scan_nul16(s: Seq<u8>, j: int, little: bool, acc: Seq<u16>) -> Result<(Seq<u16>, int), ParseError>
    decreases s.len() - j,
{
    if !fits(s, j, 2) {
        Err(ParseError::UnexpectedEnd)
    } else if unit16(s, j, little) == 0 {
        Ok((acc, j + 2))
    } else {
        scan_nul16(s, j + 2, little, acc.push(unit16(s, j, little)))
    }
}

/// `n` 16-bit units at `pos`.
pub open spec fn sp_units16(s: Seq<u8>, pos: int, n: int, little: bool) -> Result<(Seq<u16>, int), ParseError> {
    field(s, pos, 2 * n, Seq::new(n as nat, |i: int| unit16(s, pos + 2 * i, little)))
}

/// The units of a 16-bit text at `pos`, after its two-byte byte-order mark
/// (`FF FE` for little-endian, anything else for big-endian).
pub open spec fn sp_utf16_units(s: Seq<u8>, pos: int, kind: BufferKind) -> Result<(Seq<u16>, int), ParseError> {
    if !fits(s, pos, 2) {
        Err(ParseError::UnexpectedEnd)
    } else {
        let little = s[pos] == 0xFF;
        match spec_ucs2_adjusted(kind) {
            None => Err(ParseError::SizeUnderflow),
            Some(BufferKind::NullTerminated) => scan_nul16(s, pos + 2, little, seq![]),
            Some(BufferKind::Sized(n)) => sp_units16(s, pos + 2, n as int, little),
        }
    }
}

/// The bytes of a single-byte text field at `pos`, before trailing NULs are dropped.
pub open spec fn sp_raw_text8(s: Seq<u8>, pos: int, kind: BufferKind) -> Result<(Seq<u8>, int), ParseError> {
    match kind {
        BufferKind::NullTerminated => scan_nul8(s, pos, pos),
        BufferKind::Sized(n) => sp_bytes(s, pos, n as int),
    }
}

/// A text field at `pos` under the given policy and encoding byte: 0 for
/// single-byte units taken as UTF-8, 1 for UTF-16 after a byte-order mark.
pub open spec fn sp_text(s: Seq<u8>, pos: int, kind: BufferKind, encoding: u8) -> Result<(Seq<char>, int), ParseError> {
    if encoding == 0 {
        match sp_raw_text8(s, pos, kind) {
            Ok((b, p)) => match text_of_utf8(b) {
                Ok(t) => Ok((t, p)),
                Err(e) => Err(e),
            },
            Err(e) => Err(e),
        }
    } else if encoding == 1 {
        match sp_utf16_units(s, pos, kind) {
            Ok((u, p)) => match text_of_utf16(u) {
                Ok(t) => Ok((t, p)),
                Err(e) => Err(e),
            },
            Err(e) => Err(e),
        }
    } else {
        Err(ParseError::InvalidTextEncoding { encoding })
    }
}

/// A 32-bit length in the given byte order, then that many bytes.
pub open spec fn sp_len_bytes(s: Seq<u8>, pos: int, little: bool) -> Result<(Seq<u8>, int), ParseError> {
    match sp_u32(s, pos, little) {
        Ok((n, p)) => sp_bytes(s, p, n as int),
        Err(e) => Err(e),
    }
}

/// A 32-bit length in the given byte order, then that many bytes of UTF-8.
pub open spec fn sp_len_string(s: Seq<u8>, pos: int, little: bool) -> Result<(Seq<char>, int), ParseError> {
    match sp_len_bytes(s, pos, little) {
        Ok((b, p)) => if valid_utf8(b) {
            Ok((decode_utf8(b), p))
        } else {
            Err(ParseError::InvalidText)
        },
        Err(e) => Err(e),
    }
}

/// A 32-bit count, then that many bytes.
pub struct CountThenVec {
    pub count: u32,
    pub vec: Vec<u8>,
}

impl View for CountThenVec {
    type V = Seq<u8>;

    open spec fn view(&self) -> Seq<u8> {
        self.vec@
    }
}

impl CountThenVec {
    /// Reads the count in the given byte order, then the bytes.
    pub fn read(data: &[u8], pos: usize, little: bool) -> (r: Result<(CountThenVec, usize), ParseError>)
        ensures
            outcome(r) == sp_len_bytes(data@, pos as int, little),
            r matches Ok((c, _)) ==> c.count == c.vec@.len(),
    {
        let (count, p) = match read_u32(data, pos, little) {
            Ok(x) => x,
            Err(e) => return Err(e),
        };
        match read_bytes(data, p, count as usize) {
            Ok((vec, q)) => Ok((CountThenVec { count, vec }, q)),
            Err(e) => Err(e),
        }
    }

    /// The bytes.
    pub fn map(self) -> (r: Vec<u8>)
        ensures
            r@ == self@,
    {
        self.vec
    }

    /// The bytes as UTF-8 text.
    pub fn map_str(self) -> (r: Result<String, ParseError>)
        ensures
            match r {
                Ok(s) => valid_utf8(self@) && s@ == decode_utf8(self@),
                Err(e) => !valid_utf8(self@) && e == ParseError::InvalidText,
            },
    {
        match utf8_string(self.vec) {
            Some(s) => Ok(s),
            None => Err(ParseError::InvalidText),
        }
    }
}

/// Reads a count-prefixed UTF-8 string.
pub fn read_len_string(data: &[u8], pos: usize, little: bool) -> (r: Result<(String, usize), ParseError>)
    ensures
        outcome(r) == sp_len_string(data@, pos as int, little),
{
    match CountThenVec::read(data, pos, little) {
        Ok((c, p)) => match c.map_str() {
            Ok(s) => Ok((s, p)),
            Err(e) => Err(e),
        },
        Err(e) => Err(e),
    }
}

pub proof fn lemma_len_string_advances(s: Seq<u8>, pos: int, little: bool)
    ensures
        sp_len_string(s, pos, little) matches Ok((_, p)) ==> pos + 4 <= p <= s.len(),
        sp_len_bytes(s, pos, little) matches Ok((_, p)) ==> pos + 4 <= p <= s.len(),
{
}

/// Relies on `String::from_utf8`: it accepts exactly the valid UTF-8 byte
/// sequences and keeps the characters they encode.
#[verifier::external_body]
pub(crate) fn utf8_string(bytes: Vec<u8>) -> (r: Option<String>)
    ensures
        r is Some <==> valid_utf8(bytes@),
        r is Some ==> r->Some_0@ == decode_utf8(bytes@),
{
    match String::from_utf8(bytes) {
        Ok(s) => Some(s),
        Err(_) => None,
    }
}

/// Relies on `String::from_utf16`: it accepts exactly the well-formed UTF-16
/// sequences (every surrogate in a high-low pair) and keeps the characters
/// they encode.
#[verifier::external_body]
pub(crate) fn utf16_string(units: &[u16]) -> (r: Option<String>)
    ensures
        match r {
            Some(s) => decode_utf16(units@) == Some(s@),
            None => decode_utf16(units@) is None,
        },
{
    match String::from_utf16(units) {
        Ok(s) => Some(s),
        Err(_) => None,
    }
}

/// Drops the trailing zero bytes of `v`.
pub fn trim_trailing_zeros(v: &mut Vec<u8>)
    ensures
        final(v)@ == trim_zeros(old(v)@),
{
    while v.len() > 0 && v[v.len() - 1] == 0
        invariant
            trim_zeros(v@) == trim_zeros(old(v)@),
        decreases v.len(),
    {
        v.pop();
    }
}

/// The text that UTF-8 bytes carry once trailing NULs are dropped.
pub fn utf8_text(bytes: Vec<u8>) -> (r: Result<String, ParseError>)
    ensures
        match r {
            Ok(s) => text_of_utf8(bytes@) == Ok::<Seq<char>, ParseError>(s@),
            Err(e) => text_of_utf8(bytes@) == Err::<Seq<char>, ParseError>(e),
        },
{
    let mut b = bytes;
    trim_trailing_zeros(&mut b);
    match utf8_string(b) {
        Some(s) => Ok(s),
        None => Err(ParseError::InvalidText),
    }
}

/// Drops the trailing zero units of `v`.
pub fn trim_trailing_zero_units(v: &mut Vec<u16>)
    ensures
        final(v)@ == trim_zero_units(old(v)@),
{
    while v.len() > 0 && v[v.len() - 1] == 0
        invariant
            trim_zero_units(v@) == trim_zero_units(old(v)@),
        decreases v.len(),
    {
        v.pop();
    }
}

/// The text that UTF-16 units carry once trailing NULs are dropped.
pub fn utf16_text(units: Vec<u16>) -> (r: Result<String, ParseError>)
    ensures
        match r {
            Ok(s) => text_of_utf16(units@) == Ok::<Seq<char>, ParseError>(s@),
            Err(e) => text_of_utf16(units@) == Err::<Seq<char>, ParseError>(e),
        },
{
    let mut u = units;
    trim_trailing_zero_units(&mut u);
    match utf16_string(u.as_slice()) {
        Some(s) => Ok(s),
        None => Err(ParseError::InvalidText),
    }
}

/// The bytes up to the first zero byte at or after `pos`, and the position
/// just past that zero byte.
pub fn read_until_nul8(data: &[u8], pos: usize) -> (r: Result<(Vec<u8>, usize), ParseError>)
    ensures
        outcome(r) == scan_nul8(data@, pos as int, pos as int),
{
    let mut j: usize = pos;
    while j < data.len() && data[j] != 0
        invariant
            pos <= j,
            scan_nul8(data@, pos as int, j as int) == scan_nul8(data@, pos as int, pos as int),
        decreases data.len() - j,
    {
        j = j + 1;
    }
    if j >= data.len() {
        return Err(ParseError::UnexpectedEnd);
    }
    match read_bytes(data, pos, j - pos) {
        Ok((b, _)) => Ok((b, j + 1)),
        Err(e) => Err(e),
    }
}

fn read_unit16(data: &[u8], j: usize, little: bool) -> (u: u16)
    requires
        fits(data@, j as int, 2),
    ensures
        u == unit16(data@, j as int, little),
{
    if little {
        data[j] as u16 + (data[j + 1] as u16) * 0x100
    } else {
        (data[j] as u16) * 0x100 + data[j + 1] as u16
    }
}

/// 16-bit units from `pos` up to the first zero unit, and the position just
/// past that zero unit.
pub fn read_until_nul16(data: &[u8], pos: usize, little: bool) -> (r: Result<(Vec<u16>, usize), ParseError>)
    ensures
        outcome(r) == scan_nul16(data@, pos as int, little, seq![]),
{
    let mut acc: Vec<u16> = Vec::new();
    let mut j: usize = pos;
    loop
        invariant
            pos <= j,
            scan_nul16(data@, j as int, little, acc@) == scan_nul16(data@, pos as int, little, seq![]),
        decreases data.len() - j,
    {
        if !(j <= data.len() && 2 <= data.len() - j) {
            return Err(ParseError::UnexpectedEnd);
        }
        let u = read_unit16(data, j, little);
        if u == 0 {
            return Ok((acc, j + 2));
        }
        acc.push(u);
        j = j + 2;
    }
}

/// `n` 16-bit units at `pos`.
pub fn read_units16(data: &[u8], pos: usize, n: u32, little: bool) -> (r: Result<(Vec<u16>, usize), ParseError>)
    ensures
        outcome(r) == sp_units16(data@, pos as int, n as int, little),
{
    let count = n as usize;
    if !(pos <= data.len() && count <= (data.len() - pos) / 2) {
        return Err(ParseError::UnexpectedEnd);
    }
    let mut out: Vec<u16> = Vec::with_capacity(count);
    let mut i: usize = 0;
    while i < count
        invariant
            i <= count,
            count == n,
            pos + 2 * count <= data.len(),
            out@ =~= Seq::new(i as nat, |k: int| unit16(data@, pos + 2 * k, little)),
        decreases count - i,
    {
        let u = read_unit16(data, pos + 2 * i, little);
        out.push(u);
        i = i + 1;
    }
    Ok((out, pos + 2 * count))
}

/// The units of a UTF-16 text field at `pos`, after its byte-order mark.
pub fn read_utf16_units(data: &[u8], pos: usize, kind: BufferKind) -> (r: Result<(Vec<u16>, usize), ParseError>)
    ensures
        outcome(r) == sp_utf16_units(data@, pos as int, kind),
{
    if !(pos <= data.len() && 2 <= data.len() - pos) {
        return Err(ParseError::UnexpectedEnd);
    }
    let little = data[pos] == 0xFF;
    match kind.ucs2_adjusted() {
        None => Err(ParseError::SizeUnderflow),
        Some(BufferKind::NullTerminated) => read_until_nul16(data, pos + 2, little),
        Some(BufferKind::Sized(n)) => read_units16(data, pos + 2, n, little),
    }
}

/// A text field at `pos` under the given policy and encoding byte: the
/// decoded string with trailing NULs dropped, and the position just past the
/// field.
pub fn read_text(data: &[u8], pos: usize, kind: BufferKind, encoding: u8) -> (r: Result<(String, usize), ParseError>)
    ensures
        outcome(r) == sp_text(data@, pos as int, kind, encoding),
{
    if encoding == 0 {
        let raw = match kind {
            BufferKind::NullTerminated => read_until_nul8(data, pos),
            BufferKind::Sized(n) => read_bytes(data, pos, n as usize),
        };
        match raw {
            Ok((b, p)) => match utf8_text(b) {
                Ok(t) => Ok((t, p)),
                Err(e) => Err(e),
            },
            Err(e) => Err(e),
        }
    } else if encoding == 1 {
        match read_utf16_units(data, pos, kind) {
            Ok((u, p)) => match utf16_text(u) {
                Ok(t) => Ok((t, p)),
                Err(e) => Err(e),
            },
            Err(e) => Err(e),
        }
    } else {
        Err(ParseError::InvalidTextEncoding { encoding })
    }
}

// ---------------------------------------------------------------------------
// Each text decoder ends inside the buffer, and never before it started.

#[verifier::rlimit(50)]
proof fn lemma_scan_nul8_advances(s: Seq<u8>, start: int, j: int)
    requires
        0 <= j,
    ensures
        scan_nul8(s, start, j) matches Ok((_, p)) ==> j < p <= s.len(),
    decreases s.len() - j,
{
    if fits(s, j, 1) && s[j] != 0 {
        lemma_scan_nul8_advances(s, start, j + 1);
    }
}

#[verifier::rlimit(50)]
proof fn lemma_scan_nul16_advances(s: Seq<u8>, j: int, little: bool, acc: Seq<u16>)
    requires
        0 <= j,
    ensures
        scan_nul16(s, j, little, acc) matches Ok((_, p)) ==> j < p <= s.len(),
    decreases s.len() - j,
{
    if fits(s, j, 2) && unit16(s, j, little) != 0 {
        lemma_scan_nul16_advances(s, j + 2, little, acc.push(unit16(s, j, little)));
    }
}

#[verifier::rlimit(50)]
pub proof fn lemma_text_advances(s: Seq<u8>, pos: int, kind: BufferKind, encoding: u8)
    requires
        0 <= pos,
    ensures
        sp_text(s, pos, kind, encoding) matches Ok((_, p)) ==> pos <= p <= s.len(),
{
    lemma_scan_nul8_advances(s, pos, pos);
    lemma_scan_nul16_advances(s, pos + 2, s[pos] == 0xFF, seq![]);
    if let Some(BufferKind::Sized(n)) = spec_ucs2_adjusted(kind) {
        assert(0 <= 2 * (n as int));
    }
}


/// A high surrogate followed by a low one decodes to the single character
/// `0x10000 + (hi - 0xD800) * 0x400 + (lo - 0xDC00)`; a surrogate on its own
/// makes the units invalid.
#[verifier::rlimit(50)]
pub proof fn lemma_utf16_surrogates(hi: u16, lo: u16)
    requires
        is_high_surrogate(hi),
        is_low_surrogate(lo),
    ensures
        decode_utf16(seq![hi, lo]) == Some(seq![surrogate_pair_char(hi, lo)]),
        decode_utf16(seq![hi]) is None,
        decode_utf16(seq![lo]) is None,
        decode_utf16(seq![lo, hi]) is None,
{
    let s = seq![hi, lo];
    assert(s[0] == hi && s[1] == lo && s.len() == 2);
    assert(s.subrange(2, 2) =~= Seq::<u16>::empty());
    assert(decode_utf16(s.subrange(2, 2)) == Some(Seq::<char>::empty()));
    assert(seq![surrogate_pair_char(hi, lo)] + Seq::<char>::empty() =~= seq![surrogate_pair_char(hi, lo)]);
}

} // verus!
