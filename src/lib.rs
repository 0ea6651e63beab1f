//! Decoding of the GameMaps level container: a small header file that lists
//! level offsets, and a data file that holds each level's sub-header and planes.
//!
//! Levels are enumerated in table order up to the first non-positive offset. Each
//! level borrows its planes and name from the data buffer; its name is the name field
//! up to the first byte that is zero or outside ASCII. A sub-header or plane that does not lie inside the data
//! buffer is reported as an error, never read.

pub mod catalog;
pub mod error;
pub mod header;
pub mod layout;
pub mod level;

pub use catalog::{read, GameData, Levels, Planes};
pub use error::DecodeError;
pub use header::{decode_header, encode_header, HeaderTable};
pub use level::{decode_level, Level, LevelView};

