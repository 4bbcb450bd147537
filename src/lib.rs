//! A lossy image codec: 2x2 blocks of an RGB image become 32-bit codewords.

pub mod array2;
pub mod bitpack;
pub mod blocks;
pub mod block_packing;
pub mod compress_pixels;
pub mod words;
