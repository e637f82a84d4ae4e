//! Film-grain inspection and rewriting for AV1 bitstreams.
//!
//! `parser` walks the OBUs of each packet, `sequence` and `frame` read the
//! headers up to the film grain block, `grain` reads and writes that block,
//! `timeline` turns per-frame grain into table segments, and `table` holds
//! grain tables and their text form.
pub mod bits;
pub mod color;
mod error;
pub mod filters;
pub mod frame;
pub mod frame_type;
pub mod grain;
pub mod leb128;
pub mod obu;
pub mod parser;
pub mod sequence;
pub mod table;
pub mod timeline;

pub use error::ParseError;
