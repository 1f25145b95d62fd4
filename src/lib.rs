//! Decoding of FLAC metadata blocks and ID3v2 tag frames from raw file bytes.
//!
//! Every decoder is stated as a spec function over the input bytes and a
//! position in them; the executable decoders are proved to compute exactly
//! that function, errors included.

pub mod bytes;
pub mod error;
pub mod flac;
pub mod id3v2;
pub mod text;

pub use error::ParseError;
pub use flac::{Flac, Metadata, PictureKind, SeekPoint, StreamInfo, UserComment, VorbisComment};
pub use id3v2::{Comment, Frame, Id3v2, Ufid};
