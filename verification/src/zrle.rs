//! ZRLE: rectangles cut into tiles of at most 64 by 64 pixels, each tile in
//! one of five layouts, the whole carried in one zlib stream that lasts as
//! long as the session.
pub mod cpixel;
pub mod packed;
pub mod rectangle;
pub mod runs;
pub mod stream;
pub mod tile;

pub use cpixel::{Compact, PixelLayout};
pub use runs::{IndexRun, Run};
pub use stream::{DecodedTile, Decoder, Encoder};
pub use tile::Tile;
