//! Rules of the PopCap PAK archive workspace.
pub mod time;
pub mod model;
pub mod browser;
pub mod edit;
pub mod tree;
