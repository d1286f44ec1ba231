//! The decisions of a desktop photo viewer.

pub mod batch;
pub mod cache;
pub mod caption;
pub mod config;
pub mod decode;
pub mod imageset;
pub mod inbox;
pub mod jobs;
pub mod listing;
pub mod natural;
pub mod path;
pub mod proportions;
pub mod raster;
pub mod rounding;
pub mod single;
pub mod sizing;
pub mod text;
pub mod viewstate;
pub mod worker;
