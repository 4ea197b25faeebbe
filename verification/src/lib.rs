//! Perceptual fingerprints of raster images and the search for near-duplicate
//! pictures among them.
//!
//! - [`phash`]: the fingerprint of an image and the distance between two
//!   fingerprints.
//! - [`index`] and [`walk`]: which files of a directory tree are candidate
//!   images, and which of them are compared with which.
//! - [`matcher`]: the near-duplicates within one group of pictures.
//! - [`report`]: what is printed of a group, which file of a pair is given
//!   up, and how a run ended.
//! - [`pic`]: the record kept for one picture.
//!
//! Nothing here reads a file or a directory, prints, or removes anything:
//! the caller does that and hands over what it read.

pub mod index;
pub mod matcher;
pub mod phash;
pub mod pic;
pub mod report;
pub mod walk;
