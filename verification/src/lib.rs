//! Line-oriented reading over a zstd-compressed byte stream.
//!
//! A reader holds compressed bytes and decompresses them piece by piece into a
//! staging buffer of fixed size. Each call hands out the next line of the
//! decompressed stream, delimiter included, however the lines fall across the
//! refills of the buffer.

pub mod error;
pub mod handle;
pub mod lines;
pub mod reader;
pub mod source;

pub use error::LineReadError;
pub use handle::{handle_of, zstd_line_read, zstd_line_read_new, ZstdLineReader};
pub use lines::{take_line, DELIMITER};
pub use reader::{DecoderWrapper, BUF_SIZE};
