//! Rendering of a directory of markdown documents: code-block interception
//! with syntax highlighting, sibling navigation and the page listing.
pub mod codeblock;
pub mod highlight;
pub mod listing;
pub mod nav;
pub mod order;
pub mod page;
pub mod text;
