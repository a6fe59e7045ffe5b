//! Pages as documents: links, the node tree, and the transforms that
//! rewrite it.

pub mod attr;

pub mod dom;
pub mod listing;
pub mod markup;
pub mod mods;
pub mod shape;
pub mod walk;

pub use crate::source::process_html;
