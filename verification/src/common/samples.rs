//! Small ready-made values: an empty page, a section, and a book by a
//! known author.

use vstd::prelude::*;
use crate::common::book::{
    spec_book_id, spec_book_title, spec_readable_metadata, Book, BookMetadata, BookSection,
    BookView, MetadataView,
};
use vstd::string::StringExecFns;
use crate::pagination::Page;

verus! {

/// An empty page starting at `start_offset` and ending 100 bytes later.
pub fn create_page(start_offset: usize) -> (p: Page)
    requires
        start_offset + 100 <= usize::MAX,
    ensures
        p@ == (Seq::<(Seq<char>, nat)>::empty(), start_offset as nat, start_offset as nat + 100),
{
    let p = Page::new(Vec::new(), start_offset, start_offset + 100);
    proof {
        assert(p@.0 =~= Seq::<(Seq<char>, nat)>::empty());
    }
    p
}

pub fn create_book_section(id: &str, content: &str) -> (s: BookSection)
    ensures
        s@ == (id@, content@),
{
    BookSection::new(String::from_str(id), String::from_str(content))
}

/// The metadata of a "Test Book" by "Test Author", with nothing else known.
pub open spec fn sample_metadata() -> MetadataView {
    MetadataView {
        title: "Test Book"@,
        author: Some("Test Author"@),
        description: None,
        series: None,
        series_order_number: None,
        subjects: None,
        isbn: None,
        publisher: None,
        rights: None,
    }
}

/// "Test Book" by "Test Author" with the given sections.
pub fn create_book(sections: Vec<BookSection>) -> (b: Book)
    ensures
        b@ == (BookView {
            sections: sections@.map_values(|s: BookSection| s@),
            title: spec_book_title(sample_metadata()),
            metadata: spec_readable_metadata(sample_metadata()),
            id: spec_book_id(sample_metadata()),
        }),
{
    let metadata = BookMetadata::new(
        String::from_str("Test Book"),
        Some(String::from_str("Test Author")),
        None,
        None,
        None,
        None,
        None,
        None,
        None,
    );
    Book::new(metadata, sections)
}

} // verus!
