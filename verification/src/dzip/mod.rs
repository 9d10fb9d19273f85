//! Rules of the DZip archive workspace.
pub mod service;
pub mod paths;
pub mod archive;
pub mod browser;
pub mod edit;
pub mod workspace;
pub mod volumes;
pub mod summary;
