//! Making and reading ISO 9660 images, with El Torito boot catalogues and a
//! protective master boot record.
//!
//! An image is made in a byte store that the caller has sized: `IsoImage::format_new`
//! lays the tree of `FormatOptions` out in it, and `FormatOptions::formatted` says
//! byte for byte what it writes. `IsoImage::new` opens an image again, and
//! `IsoDirectory` and `IsoPathTable` read its directories, files and path tables.
//! The modules `laws` and `walk` hold what is proved of the two together.
use vstd::prelude::*;

pub mod boot;
pub mod directory;
pub mod error;
pub mod file;
pub mod image;
pub mod laws;
pub mod layout;
pub mod mbr;
pub mod path;
pub mod raw;
pub mod reader;
pub mod tree;
pub mod types;
pub mod volume;
pub mod walk;
pub mod writer;

pub use error::IsoError;
pub use image::{ElToritoOptions, FormatOptions, IsoImage, VolumeDates};
pub use reader::{IsoDirectory, IsoPathTable, PathTableRef};
pub use tree::IsoFile;
pub use writer::FileWriter;

verus! {

/// Number of bytes in one logical block of an image.
pub const SECTOR_SIZE: usize = 2048;

/// Number of whole sectors needed to hold `size` bytes.
pub fn to_sectors_ceil(size: usize) -> (sectors: usize)
    ensures
        sectors == crate::layout::sectors_for(size as int),
{
    if size % 2048 == 0 {
        size / 2048
    } else {
        size / 2048 + 1
    }
}

} // verus!
