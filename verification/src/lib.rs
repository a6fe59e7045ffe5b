//! Resolution and rewriting of static pages: link classification, media
//! types, a document tree with the three page transforms, the resolver
//! that drives them, and a small embedded script language.

pub mod config;
pub mod error;
pub mod html;
pub mod mediatype;
pub mod mime;
pub mod path;
pub mod script;
pub mod source;
pub mod text;
