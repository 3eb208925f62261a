//! An e-book reading library: text layout, pagination, EPUB package
//! interpretation, book identity and bookmarks, with the decisions of the
//! terminal reader.

pub mod common;
pub mod layout;
pub mod onboarding;
pub mod pagination;
pub mod parsers;
pub mod rendering;
pub mod text;
