//! Verified decoders for the gzip-compressed, big-endian binary container
//! format that the EMNIST/MNIST datasets ship in, and for the per-class
//! score matrices that a classifier produces over such a dataset.
//!
//! The library works on plain byte buffers: callers read the compressed
//! files and hand the bytes to [`loader::load_data`], and turn a model's
//! score matrix into [`category::Score`] rows for
//! [`category::decode_predictions`].

pub mod bytes;
pub mod container;
pub mod loader;
pub mod category;
