//! Cutting laid-out lines into pages, and finding a page from a byte offset.

pub mod basic;
pub mod laws;

use vstd::prelude::*;
use std::collections::HashMap;
use crate::common::line::Line;
use crate::layout::{lines_within, LayoutEngine, LayoutOutput, SectionView};
use crate::text::byte_len;

verus! {

/// A page as plain values: its lines, and the offsets of its first byte and
/// of the end of its last line.
pub type PageView = (Seq<(Seq<char>, nat)>, nat, nat);

#[derive(Debug)]
pub struct Page {
    content: Vec<Line>,
    start_byte_offset: usize,
    end_byte_offset: usize,
}

impl View for Page {
    type V = PageView;

    closed spec fn view(&self) -> PageView {
        (
            self.content@.map_values(|l: Line| l@),
            self.start_byte_offset as nat,
            self.end_byte_offset as nat,
        )
    }
}

impl Page {
    pub fn new(content: Vec<Line>, start_byte_offset: usize, end_byte_offset: usize) -> (p: Page)
        ensures
            p@ == (
                content@.map_values(|l: Line| l@),
                start_byte_offset as nat,
                end_byte_offset as nat,
            ),
    {
        Page { content, start_byte_offset, end_byte_offset }
    }

    pub fn get_content(&self) -> (r: &Vec<Line>)
        ensures
            r@.map_values(|l: Line| l@) == self@.0,
    {
        &self.content
    }

    pub fn get_start_offset(&self) -> (n: usize)
        ensures
            n == self@.1,
    {
        self.start_byte_offset
    }

    pub fn get_end_offset(&self) -> (n: usize)
        ensures
            n == self@.2,
    {
        self.end_byte_offset
    }
}

/// Every line of `sections` ends at an offset that a `usize` holds.
pub open spec fn lines_fit(sections: Seq<SectionView>) -> bool {
    lines_within(sections, usize::MAX as nat)
}

/// A way of cutting a layout into pages of a given number of lines.
pub trait PaginationEngine<L: LayoutEngine> {
    type OutputPages;

    /// Whether `out` is what this engine makes of `sections`.
    spec fn pages_of(sections: Seq<SectionView>, page_size: nat, out: Self::OutputPages) -> bool;

    fn create_pages(layout: &L::OutputLayout, page_size: usize) -> (out: Self::OutputPages)
        requires
            page_size > 0,
            lines_fit(layout.sections_view()),
        ensures
            Self::pages_of(layout.sections_view(), page_size as nat, out),
    ;
}

/// Cuts `layout` into pages with engine `E`.
pub fn paginate<L: LayoutEngine, E: PaginationEngine<L>>(
    layout: &L::OutputLayout,
    page_size: usize,
) -> (out: E::OutputPages)
    requires
        page_size > 0,
        lines_fit(layout.sections_view()),
    ensures
        E::pages_of(layout.sections_view(), page_size as nat, out),
{
    E::create_pages(layout, page_size)
}

/// The page number recorded for each start offset: the last page that
/// starts there.
pub open spec fn offset_lookup(starts: Seq<nat>) -> Map<usize, usize>
    decreases starts.len(),
{
    if starts.len() == 0 {
        Map::empty()
    } else {
        offset_lookup(starts.drop_last()).insert(
            starts.last() as usize,
            (starts.len() - 1) as usize,
        )
    }
}

pub open spec fn page_starts(pages: Seq<PageView>) -> Seq<nat> {
    pages.map_values(|p: PageView| p.1)
}

/// Maps each page's start offset to the page's index; where several pages
/// start at one offset the last of them is kept.
pub fn pages_offset_to_pg_no(pages: &Vec<Page>) -> (m: HashMap<usize, usize>)
    ensures
        m@ == offset_lookup(page_starts(pages@.map_values(|p: Page| p@))),
{
    broadcast use vstd::std_specs::hash::group_hash_axioms;

    let ghost starts = page_starts(pages@.map_values(|p: Page| p@));
    let mut m: HashMap<usize, usize> = HashMap::new();
    for i in 0..pages.len()
        invariant
            starts == page_starts(pages@.map_values(|p: Page| p@)),
            m@ == offset_lookup(starts.take(i as int)),
    {
        let start = pages[i].get_start_offset();
        m.insert(start, i);
        proof {
            assert(starts.take(i + 1).drop_last() =~= starts.take(i as int));
            assert(starts.take(i + 1).last() == start as nat);
        }
    }
    proof {
        assert(starts.take(pages.len() as int) =~= starts);
    }
    m
}

} // verus!
