//! The decisions behind fetching game assets from a content delivery network:
//! which product and build to ask for, which URL and byte range hold a file,
//! where things are cached, and how paths and numeric ids are turned into names.

pub mod archive;
pub mod cdn;
pub mod cli;
pub mod download;
pub mod error;
pub mod hexcode;
pub mod paths;
pub mod resolve;
pub mod text;

pub use cdn::Product;
