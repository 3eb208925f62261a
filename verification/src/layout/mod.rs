//! Laying out a book's sections into lines of bounded width, each line
//! carrying the byte offset of its first character in the book.

pub mod basic;
pub mod laws;
pub mod wrap;

use vstd::prelude::*;
use crate::common::book::Book;
use crate::common::line::Line;
use crate::text::byte_len;

verus! {

/// A laid-out section: its id and its lines with their offsets.
pub type SectionView = (Seq<char>, Seq<(Seq<char>, nat)>);

/// Bytes that laying out `sections` walks over: each section's text and
/// one byte after it.
pub open spec fn sections_bytes(sections: Seq<(Seq<char>, Seq<char>)>) -> nat
    decreases sections.len(),
{
    if sections.len() == 0 {
        0
    } else {
        sections_bytes(sections.drop_last()) + byte_len(sections.last().1) + 1
    }
}

/// Every line of `sections` ends at or before byte offset `bound`.
pub open spec fn lines_within(sections: Seq<SectionView>, bound: nat) -> bool {
    forall|k: int, j: int|
        0 <= k < sections.len() && 0 <= j < sections[k].1.len() ==> #[trigger] sections[k].1[j].1
            + byte_len(sections[k].1[j].0) <= bound
}

#[derive(Debug)]
pub struct LayoutSection {
    id: String,
    lines: Vec<Line>,
}

impl View for LayoutSection {
    type V = SectionView;

    closed spec fn view(&self) -> SectionView {
        (self.id@, self.lines@.map_values(|l: Line| l@))
    }
}

impl LayoutSection {
    pub fn new(id: String, lines: Vec<Line>) -> (s: LayoutSection)
        ensures
            s@ == (id@, lines@.map_values(|l: Line| l@)),
    {
        LayoutSection { id, lines }
    }

    pub fn get_lines(&self) -> (r: &Vec<Line>)
        ensures
            r@.map_values(|l: Line| l@) == self@.1,
    {
        &self.lines
    }
}

/// The result of a layout: its sections in order.
pub trait LayoutOutput {
    spec fn sections_view(&self) -> Seq<SectionView>;

    fn get_all_sections(&self) -> (r: &Vec<LayoutSection>)
        ensures
            r@.map_values(|s: LayoutSection| s@) == self.sections_view(),
    ;
}

/// A way of laying out a book for a given maximum line width.
pub trait LayoutEngine {
    type OutputLayout: LayoutOutput;

    /// The sections this engine produces from a book's sections.
    spec fn layout_of(max_width: nat, sections: Seq<(Seq<char>, Seq<char>)>) -> Seq<SectionView>;

    fn create_layout(max_width: usize, book: &Book) -> (out: Self::OutputLayout)
        requires
            sections_bytes(book@.sections) <= usize::MAX,
        ensures
            out.sections_view() == Self::layout_of(max_width as nat, book@.sections),
            lines_within(out.sections_view(), sections_bytes(book@.sections)),
    ;
}

/// Lays `book` out with engine `E`.
pub fn layoutize<E: LayoutEngine>(book: &Book, max_width: usize) -> (out: E::OutputLayout)
    requires
        sections_bytes(book@.sections) <= usize::MAX,
    ensures
        out.sections_view() == E::layout_of(max_width as nat, book@.sections),
        lines_within(out.sections_view(), sections_bytes(book@.sections)),
{
    E::create_layout(max_width, book)
}

} // verus!
