//! A handle-based view over a parsed HTML document tree.
//!
//! A document is parsed once into a [`dom::DocTree`], owned by an
//! [`tree::HTMLTree`] through a reference-counted pointer.  Every
//! [`tree::DOMNode`] keeps only a weak link back to the owner together with
//! the index of one node, and re-validates that link on every access, so no
//! operation can ever touch a released document.
//!
//! A document never changes once it is shared: the tree grows only while
//! it is being built, and every later operation reads it.  This is a
//! deliberate restriction — it is what fixes the contents a weak link
//! designates — and it is why no in-place mutation of a live tree (node
//! insertion, removal, attribute write-back) is offered.

pub mod chars;
pub mod coll;
pub mod dom;
pub mod iter;
pub mod parse;
pub mod ser;
pub mod tokens;
pub mod tree;

pub use dom::DocTree;
pub use dom::NodeType;
pub use tree::DOMNode;
pub use tree::HTMLTree;
