//! Release resolution, download naming and executable extraction for a
//! product release catalog.
pub mod archive;
pub mod backend;
pub mod catalog;
pub mod download;
pub mod placement;
pub mod platform;
pub mod text;
