//! Draws an ordered tree of labelled nodes as text, one line per node, with
//! branch connectors in front of each label.

pub mod indent;
pub mod laws;
pub mod render;
pub mod tree;

pub use indent::Indent;
pub use tree::Node;
