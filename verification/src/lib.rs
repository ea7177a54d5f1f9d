//! A streaming gzip codec that performs no I/O of its own.
//!
//! The encoder and the decoders are driven by their caller: each read is
//! handed a [`Source`], the bytes that the underlying byte source has ready
//! together with its answer for when they run out, and an output buffer.
//! Everything between the two is decided here: the layout and the parsing
//! of headers, the order of header, body and trailer, the checks of the
//! trailer, and the passage from one member to the next.

pub mod crc;
pub mod decoder;
pub mod deflate;
pub mod encoder;
pub mod error;
pub mod header;
pub mod laws;
pub mod level;
pub mod parse;
pub mod replay;
pub mod source;

pub use crate::decoder::GzDecoder;
pub use crate::decoder::MultiGzDecoder;
pub use crate::encoder::gz_encoder;
pub use crate::encoder::GzEncoder;
pub use crate::error::ErrorKind;
pub use crate::error::GzError;
pub use crate::header::GzHeader;
pub use crate::level::Compression;
pub use crate::source::Source;
pub use crate::source::SourceEnd;
