//! The kinds of book files the library knows.

use vstd::prelude::*;
use vstd::string::StringExecFns;
use crate::parsers::xml_events::is_named;

verus! {

#[derive(Debug, Clone, Copy, PartialEq, Eq, Structural)]
pub enum BookFileTypes {
    EpubFileType,
    UnknownFileType,
}

/// The kind of book a file extension names: only `epub` is known.
pub open spec fn file_type_of(extension: Seq<char>) -> BookFileTypes {
    if extension == "epub"@ {
        BookFileTypes::EpubFileType
    } else {
        BookFileTypes::UnknownFileType
    }
}

impl BookFileTypes {
    pub fn new(file_type: &str) -> (t: BookFileTypes)
        ensures
            t == file_type_of(file_type@),
    {
        let s = String::from_str(file_type);
        if is_named(&s, "epub") {
            BookFileTypes::EpubFileType
        } else {
            BookFileTypes::UnknownFileType
        }
    }
}

} // verus!
