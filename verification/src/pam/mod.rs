//! Rules of the PAM animation viewer and editor.
pub mod graph;
pub mod validate;
pub mod history;
pub mod state;
pub mod edit;
pub mod flow;
