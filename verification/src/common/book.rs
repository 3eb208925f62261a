//! Books: their metadata, their sections, and the display strings derived
//! from the metadata.

use vstd::prelude::*;
use crate::text::{decimal, join_strings, join_with, usize_to_decimal};

verus! {

#[derive(Debug)]
pub struct BookMetadata {
    title: String,
    author: Option<String>,
    description: Option<String>,
    series: Option<String>,
    series_order_number: Option<usize>,
    subjects: Option<Vec<String>>,
    isbn: Option<String>,
    publisher: Option<String>,
    rights: Option<String>,
}

/// The metadata of a book as plain values.
pub struct MetadataView {
    pub title: Seq<char>,
    pub author: Option<Seq<char>>,
    pub description: Option<Seq<char>>,
    pub series: Option<Seq<char>>,
    pub series_order_number: Option<nat>,
    pub subjects: Option<Seq<Seq<char>>>,
    pub isbn: Option<Seq<char>>,
    pub publisher: Option<Seq<char>>,
    pub rights: Option<Seq<char>>,
}

pub open spec fn opt_view(o: Option<String>) -> Option<Seq<char>> {
    match o {
        Some(s) => Some(s@),
        None => None,
    }
}

/// The string held by `o`, or `default` when there is none.
pub open spec fn or_default(o: Option<Seq<char>>, default: Seq<char>) -> Seq<char> {
    match o {
        Some(s) => s,
        None => default,
    }
}

impl View for BookMetadata {
    type V = MetadataView;

    closed spec fn view(&self) -> MetadataView {
        MetadataView {
            title: self.title@,
            author: opt_view(self.author),
            description: opt_view(self.description),
            series: opt_view(self.series),
            series_order_number: match self.series_order_number {
                Some(n) => Some(n as nat),
                None => None,
            },
            subjects: match self.subjects {
                Some(v) => Some(v@.map_values(|s: String| s@)),
                None => None,
            },
            isbn: opt_view(self.isbn),
            publisher: opt_view(self.publisher),
            rights: opt_view(self.rights),
        }
    }
}

impl BookMetadata {
    pub fn new(
        title: String,
        author: Option<String>,
        description: Option<String>,
        series: Option<String>,
        series_order_number: Option<usize>,
        subjects: Option<Vec<String>>,
        isbn: Option<String>,
        publisher: Option<String>,
        rights: Option<String>,
    ) -> (m: BookMetadata)
        ensures
            m@ == (MetadataView {
                title: title@,
                author: opt_view(author),
                description: opt_view(description),
                series: opt_view(series),
                series_order_number: match series_order_number {
                    Some(n) => Some(n as nat),
                    None => None,
                },
                subjects: match subjects {
                    Some(v) => Some(v@.map_values(|s: String| s@)),
                    None => None,
                },
                isbn: opt_view(isbn),
                publisher: opt_view(publisher),
                rights: opt_view(rights),
            }),
    {
        BookMetadata {
            title,
            author,
            description,
            series,
            series_order_number,
            subjects,
            isbn,
            publisher,
            rights,
        }
    }
}

#[derive(Debug)]
pub struct BookSection {
    id: String,
    content: String,
}

impl View for BookSection {
    /// The section's id and its text.
    type V = (Seq<char>, Seq<char>);

    closed spec fn view(&self) -> (Seq<char>, Seq<char>) {
        (self.id@, self.content@)
    }
}

impl BookSection {
    pub fn new(id: String, content: String) -> (s: BookSection)
        ensures
            s@ == (id@, content@),
    {
        BookSection { id, content }
    }

    pub fn get_id(&self) -> (s: &str)
        ensures
            s@ == self@.0,
    {
        self.id.as_str()
    }

    pub fn get_content(&self) -> (s: &str)
        ensures
            s@ == self@.1,
    {
        self.content.as_str()
    }
}

/// "`title` by `author`", the title under which a book is listed.
pub open spec fn spec_book_title(m: MetadataView) -> Seq<char> {
    m.title + " by "@ + or_default(m.author, "Unknown Author"@)
}

/// The series position as shown: its decimal digits, or "-1" when unknown.
pub open spec fn spec_series_position(m: MetadataView) -> Seq<char> {
    match m.series_order_number {
        Some(n) => decimal(n),
        None => "-1"@,
    }
}

/// The subjects as shown: joined with ", ", or "N/A" when unknown.
pub open spec fn spec_subjects_text(m: MetadataView) -> Seq<char> {
    match m.subjects {
        Some(list) => join_with(list, ", "@),
        None => "N/A"@,
    }
}

/// The human-readable metadata block shown next to the library list.
pub open spec fn spec_readable_metadata(m: MetadataView) -> Seq<char> {
    m.title + " by "@ + or_default(m.author, "Unknown Author"@) + "\n\n "@ + or_default(
        m.description,
        "-"@,
    ) + "\n\n Series: #"@ + spec_series_position(m) + " of "@ + or_default(m.series, "N/A"@)
        + " \n\n Subjects: "@ + spec_subjects_text(m) + "\n\n Rights: "@ + or_default(
        m.publisher,
        "Unknown Publisher"@,
    ) + " | "@ + or_default(m.rights, "Unknown Rights"@) + " | "@ + or_default(
        m.isbn,
        "Unknown ISBN"@,
    )
}

/// "`title`|`author`|`isbn`", the key under which bookmarks are kept.
pub open spec fn spec_book_id(m: MetadataView) -> Seq<char> {
    m.title + "|"@ + or_default(m.author, "UNKN"@) + "|"@ + or_default(m.isbn, "ISBN"@)
}

pub struct Book {
    content: Vec<BookSection>,
    book_title: String,
    readable_metadata: String,
    book_id: String,
}

/// A book as plain values: its sections, title, metadata text and id.
pub struct BookView {
    pub sections: Seq<(Seq<char>, Seq<char>)>,
    pub title: Seq<char>,
    pub metadata: Seq<char>,
    pub id: Seq<char>,
}

impl View for Book {
    type V = BookView;

    closed spec fn view(&self) -> BookView {
        BookView {
            sections: self.content@.map_values(|s: BookSection| s@),
            title: self.book_title@,
            metadata: self.readable_metadata@,
            id: self.book_id@,
        }
    }
}

fn str_or<'a>(o: &'a Option<String>, default: &'a str) -> (s: &'a str)
    ensures
        s@ == or_default(opt_view(*o), default@),
{
    match o {
        Some(v) => v.as_str(),
        None => default,
    }
}

impl Book {
    pub fn new(metadata: BookMetadata, content: Vec<BookSection>) -> (b: Book)
        ensures
            b@ == (BookView {
                sections: content@.map_values(|s: BookSection| s@),
                title: spec_book_title(metadata@),
                metadata: spec_readable_metadata(metadata@),
                id: spec_book_id(metadata@),
            }),
    {
        let m = &metadata;
        let author = str_or(&m.author, "Unknown Author");

        let mut book_title = String::new();
        book_title.append(m.title.as_str());
        book_title.append(" by ");
        book_title.append(author);

        let series_position = match m.series_order_number {
            Some(n) => usize_to_decimal(n),
            None => String::from_str("-1"),
        };
        let subjects_text = match &m.subjects {
            Some(list) => join_strings(list, ", "),
            None => String::from_str("N/A"),
        };
        let mut readable_metadata = String::new();
        readable_metadata.append(m.title.as_str());
        readable_metadata.append(" by ");
        readable_metadata.append(author);
        readable_metadata.append("\n\n ");
        readable_metadata.append(str_or(&m.description, "-"));
        readable_metadata.append("\n\n Series: #");
        readable_metadata.append(series_position.as_str());
        readable_metadata.append(" of ");
        readable_metadata.append(str_or(&m.series, "N/A"));
        readable_metadata.append(" \n\n Subjects: ");
        readable_metadata.append(subjects_text.as_str());
        readable_metadata.append("\n\n Rights: ");
        readable_metadata.append(str_or(&m.publisher, "Unknown Publisher"));
        readable_metadata.append(" | ");
        readable_metadata.append(str_or(&m.rights, "Unknown Rights"));
        readable_metadata.append(" | ");
        readable_metadata.append(str_or(&m.isbn, "Unknown ISBN"));

        let mut book_id = String::new();
        book_id.append(m.title.as_str());
        book_id.append("|");
        book_id.append(str_or(&m.author, "UNKN"));
        book_id.append("|");
        book_id.append(str_or(&m.isbn, "ISBN"));

        Book { content, book_title, readable_metadata, book_id }
    }

    pub fn get_all_sections(&self) -> (r: &Vec<BookSection>)
        ensures
            r@.map_values(|s: BookSection| s@) == self@.sections,
    {
        &self.content
    }

    pub fn get_title(&self) -> (s: &str)
        ensures
            s@ == self@.title,
    {
        self.book_title.as_str()
    }

    pub fn get_metadata(&self) -> (s: &str)
        ensures
            s@ == self@.metadata,
    {
        self.readable_metadata.as_str()
    }

    pub fn get_id(&self) -> (s: &str)
        ensures
            s@ == self@.id,
    {
        self.book_id.as_str()
    }
}

} // verus!
