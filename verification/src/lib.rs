//! Reading and writing the text form of AviUtl2 track bars.
//!
//! The library works on the text of a track bar: it splits it into its
//! sections, checks its structure and reads its flags, and it assembles the
//! text again from the parts of a track.  Numbers travel through it as text
//! (and, where they are compared, as their binary64 bit patterns), so that
//! every decision about the format is made here and proved.

pub mod error;
pub mod flag;
pub mod laws;
pub mod number;
pub mod parse;
pub mod render;
pub mod text;

pub use error::TrackParseError;
pub use text::get_precision;
