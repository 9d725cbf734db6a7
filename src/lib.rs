//! A PNG thumbnail generator: chunk grammar, CRC-32, scanline filters,
//! Adam7 deinterlacing, palette expansion and resampling, with the
//! zlib codec supplied by `miniz_oxide`.
use vstd::prelude::*;

pub mod crc;
pub mod header;
pub mod filter;
pub mod adam7;
pub mod chunk;
pub mod codec;
pub mod resample;
pub mod png;
pub mod bst;
pub mod interrupts;
pub mod vga;
pub mod allocator;

verus! {

} // verus!
