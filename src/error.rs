use vstd::prelude::*;

verus! {

/// Why a buffer could not be decoded.
#[derive(Clone, Copy, Debug, PartialEq, Eq)]
pub enum ParseError {
    /// The buffer ended before a field could be read whole.
    UnexpectedEnd,
    /// The buffer does not start with the format's magic bytes.
    BadMagic,
    /// A FLAC metadata block carries a type tag that is not decoded.
    UnsupportedBlockType { block_type: u8 },
    /// A FLAC picture block names a picture kind outside the known roles.
    InvalidPictureKind { kind: u32 },
    /// A text encoding byte other than single-byte (0) or 16-bit (1).
    InvalidTextEncoding { encoding: u8 },
    /// Text bytes do not form valid UTF-8 after conversion.
    InvalidText,
    /// The ID3v2 tag sets the unsynchronisation flag, which is not supported.
    UnsynchronisationUnsupported,
    /// The ID3v2 tag sets the extended-header flag, which is not supported.
    ExtendedHeaderUnsupported,
    /// An ID3v2 frame ID outside the decoded set.
    UnsupportedFrameId { id: [u8; 4] },
    /// A size computed from declared sizes would fall below zero.
    SizeUnderflow,
}

} // verus!
