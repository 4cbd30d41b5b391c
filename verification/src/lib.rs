//! Clustering of colour samples into `k` representative colours.
//!
//! Colours are points with three 8-bit channels. Distances between them are
//! exact integers, so every contract below speaks of plain arithmetic.

pub mod color;
pub mod dominant;
pub mod driver;
pub mod geometry;
pub mod hamerly;
pub mod mapping;
pub mod plus_plus;
pub mod random;
pub mod roots;
pub mod standard;
