//! The basic pagination: each section's lines are cut, in order, into
//! pages of `page_size` lines; a section's last page may be shorter.

use vstd::prelude::*;
use crate::common::line::Line;
use crate::layout::{LayoutEngine, LayoutOutput, LayoutSection, SectionView};
use crate::pagination::{lines_fit, Page, PageView, PaginationEngine};
use crate::text::byte_len;

verus! {

/// `lines` cut into consecutive chunks of `page_size`, the last possibly
/// shorter.
pub open spec fn chunks(lines: Seq<(Seq<char>, nat)>, page_size: nat) -> Seq<
    Seq<(Seq<char>, nat)>,
>
    decreases lines.len(),
{
    if lines.len() == 0 || page_size == 0 {
        Seq::empty()
    } else if lines.len() <= page_size {
        seq![lines]
    } else {
        seq![lines.take(page_size as int)] + chunks(lines.skip(page_size as int), page_size)
    }
}

/// The page holding `chunk`: it starts at its first line's offset and ends
/// where its last line ends.
pub open spec fn page_of(chunk: Seq<(Seq<char>, nat)>) -> PageView {
    (chunk, chunk[0].1, chunk.last().1 + byte_len(chunk.last().0))
}

/// The pages of `sections`, section after section.
pub open spec fn basic_pages(sections: Seq<SectionView>, page_size: nat) -> Seq<PageView>
    decreases sections.len(),
{
    if sections.len() == 0 {
        Seq::empty()
    } else {
        basic_pages(sections.drop_last(), page_size) + chunks(
            sections.last().1,
            page_size,
        ).map_values(|c: Seq<(Seq<char>, nat)>| page_of(c))
    }
}

pub struct BasicPagination;

/// Copies `lines[from..to]`.
fn copy_lines(lines: &Vec<Line>, from: usize, to: usize) -> (out: Vec<Line>)
    requires
        from <= to <= lines.len(),
    ensures
        out@.map_values(|l: Line| l@) == lines@.map_values(|l: Line| l@).subrange(
            from as int,
            to as int,
        ),
{
    let mut out: Vec<Line> = Vec::new();
    let mut i = from;
    while i < to
        invariant
            from <= i <= to <= lines.len(),
            out@.map_values(|l: Line| l@) == lines@.map_values(|l: Line| l@).subrange(
                from as int,
                i as int,
            ),
        decreases to - i,
    {
        let ghost before = out@;
        let line = lines[i].clone();
        assert(line@ == lines@[i as int]@);
        out.push(line);
        proof {
            assert(out@ == before.push(line));
            assert(out@.map_values(|l: Line| l@) =~= before.map_values(|l: Line| l@).push(line@));
            assert(out@.map_values(|l: Line| l@) =~= lines@.map_values(|l: Line| l@).subrange(
                from as int,
                i + 1,
            ));
        }
        i = i + 1;
    }
    out
}

/// The pages of one section's lines, appended to `pages`.
fn paginate_section(pages: &mut Vec<Page>, lines: &Vec<Line>, page_size: usize)
    requires
        page_size > 0,
        forall|j: int|
            0 <= j < lines@.len() ==> #[trigger] lines@[j]@.1 + byte_len(lines@[j]@.0)
                <= usize::MAX,
    ensures
        final(pages)@.map_values(|p: Page| p@) == old(pages)@.map_values(|p: Page| p@) + chunks(
            lines@.map_values(|l: Line| l@),
            page_size as nat,
        ).map_values(|c: Seq<(Seq<char>, nat)>| page_of(c)),
{
    let ghost all = lines@.map_values(|l: Line| l@);
    let ghost base = pages@.map_values(|p: Page| p@);
    let n = lines.len();
    let mut i: usize = 0;
    proof {
        assert(all.skip(0) =~= all);
        assert(base + Seq::<PageView>::empty() =~= base);
    }
    while i < n
        invariant
            n == lines@.len(),
            all == lines@.map_values(|l: Line| l@),
            page_size > 0,
            i <= n,
            forall|j: int|
                0 <= j < lines@.len() ==> #[trigger] lines@[j]@.1 + byte_len(lines@[j]@.0)
                    <= usize::MAX,
            pages@.map_values(|p: Page| p@) + chunks(all.skip(i as int), page_size as nat).map_values(
                |c: Seq<(Seq<char>, nat)>| page_of(c),
            ) == base + chunks(all, page_size as nat).map_values(
                |c: Seq<(Seq<char>, nat)>| page_of(c),
            ),
        decreases n - i,
    {
        let end = if n - i <= page_size {
            n
        } else {
            i + page_size
        };
        let chunk = copy_lines(lines, i, end);
        let first = &lines[i];
        let last = &lines[end - 1];
        proof {
            assert(all[end - 1] == last@);
            assert(last@.1 + byte_len(last@.0) <= usize::MAX);
        }
        let end_offset = last.get_offset_of_first_char() + last.get_line_content().len();
        let ghost before = pages@;
        pages.push(Page::new(chunk, first.get_offset_of_first_char(), end_offset));
        proof {
            let rest = all.skip(i as int);
            let c = all.subrange(i as int, end as int);
            assert(c.last() == last@);
            assert(c[0] == first@);
            let f = |c: Seq<(Seq<char>, nat)>| page_of(c);
            assert(pages@.map_values(|p: Page| p@) =~= before.map_values(|p: Page| p@).push(
                page_of(c),
            ));
            if n - i <= page_size {
                assert(rest =~= c);
                assert(chunks(rest, page_size as nat) =~= seq![c]);
                assert(all.skip(end as int) =~= Seq::<(Seq<char>, nat)>::empty());
            } else {
                assert(rest.take(page_size as int) =~= c);
                assert(rest.skip(page_size as int) =~= all.skip(end as int));
                assert(chunks(rest, page_size as nat) =~= seq![c] + chunks(
                    all.skip(end as int),
                    page_size as nat,
                ));
            }
            assert(chunks(rest, page_size as nat).map_values(f) =~= seq![page_of(c)] + chunks(
                all.skip(end as int),
                page_size as nat,
            ).map_values(f));
        }
        i = end;
    }
    proof {
        assert(all.skip(n as int) =~= Seq::<(Seq<char>, nat)>::empty());
        assert(chunks(all.skip(n as int), page_size as nat).map_values(
            |c: Seq<(Seq<char>, nat)>| page_of(c),
        ) =~= Seq::<PageView>::empty());
        assert(pages@.map_values(|p: Page| p@) + Seq::<PageView>::empty() =~= pages@.map_values(
            |p: Page| p@,
        ));
    }
}

impl<L: LayoutEngine> PaginationEngine<L> for BasicPagination {
    type OutputPages = Vec<Page>;

    open spec fn pages_of(sections: Seq<SectionView>, page_size: nat, out: Vec<Page>) -> bool {
        out@.map_values(|p: Page| p@) == basic_pages(sections, page_size)
    }

    fn create_pages(layout: &L::OutputLayout, page_size: usize) -> (out: Vec<Page>) {
        let sections: &Vec<LayoutSection> = layout.get_all_sections();
        let ghost secs = layout.sections_view();
        let mut all_pages: Vec<Page> = Vec::new();
        for k in 0..sections.len()
            invariant
                secs == sections@.map_values(|s: LayoutSection| s@),
                lines_fit(secs),
                page_size > 0,
                all_pages@.map_values(|p: Page| p@) == basic_pages(
                    secs.take(k as int),
                    page_size as nat,
                ),
        {
            let lines = sections[k].get_lines();
            proof {
                assert(secs[k as int] == sections@[k as int]@);
                assert forall|j: int| 0 <= j < lines@.len() implies #[trigger] lines@[j]@.1
                    + byte_len(lines@[j]@.0) <= usize::MAX by {
                    assert(lines@.map_values(|l: Line| l@)[j] == lines@[j]@);
                    assert(secs[k as int].1[j] == lines@[j]@);
                }
                assert(secs.take(k + 1).drop_last() =~= secs.take(k as int));
                assert(secs.take(k + 1).last() == secs[k as int]);
            }
            paginate_section(&mut all_pages, lines, page_size);
        }
        proof {
            assert(secs.take(sections.len() as int) =~= secs);
        }
        all_pages
    }
}

} // verus!
