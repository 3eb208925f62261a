//! What the basic pagination and the offset lookup guarantee.

use vstd::prelude::*;
use crate::layout::basic::basic_layout;
use crate::layout::laws::{flat_lines, increasing_within, law_layout_offsets_increase};
use crate::layout::{sections_bytes, SectionView};
use crate::pagination::basic::{basic_pages, chunks, page_of};
use crate::pagination::{offset_lookup, page_starts, PageView};

verus! {

/// The sequences of `s` one after another.
pub open spec fn concat_all<T>(s: Seq<Seq<T>>) -> Seq<T>
    decreases s.len(),
{
    if s.len() == 0 {
        Seq::empty()
    } else {
        s[0] + concat_all(s.drop_first())
    }
}

/// The lines of `pages`, page after page.
pub open spec fn page_lines(pages: Seq<PageView>) -> Seq<(Seq<char>, nat)> {
    concat_all(pages.map_values(|p: PageView| p.0))
}

/// `s` strictly increases.
pub open spec fn strictly_increasing(s: Seq<nat>) -> bool {
    forall|i: int, j: int| 0 <= i < j < s.len() ==> #[trigger] s[i] < #[trigger] s[j]
}

/// `x` is the offset of one of `lines`.
pub open spec fn is_offset_of(x: nat, lines: Seq<(Seq<char>, nat)>) -> bool {
    exists|j: int| 0 <= j < lines.len() && x == #[trigger] lines[j].1
}

/// Each of `starts` is the offset of one of `lines`.
pub open spec fn among_offsets(starts: Seq<nat>, lines: Seq<(Seq<char>, nat)>) -> bool {
    forall|i: int| 0 <= i < starts.len() ==> #[trigger] is_offset_of(starts[i], lines)
}

proof fn lemma_concat_all_append<T>(a: Seq<Seq<T>>, b: Seq<Seq<T>>)
    ensures
        concat_all(a + b) == concat_all(a) + concat_all(b),
    decreases a.len(),
{
    if a.len() == 0 {
        assert(a + b =~= b);
        assert(concat_all(a) + concat_all(b) =~= concat_all(b));
    } else {
        assert((a + b).drop_first() =~= a.drop_first() + b);
        assert((a + b)[0] == a[0]);
        lemma_concat_all_append(a.drop_first(), b);
        assert(concat_all(a + b) =~= concat_all(a) + concat_all(b));
    }
}

proof fn lemma_chunks(lines: Seq<(Seq<char>, nat)>, page_size: nat)
    requires
        page_size > 0,
    ensures
        concat_all(chunks(lines, page_size)) == lines,
        forall|i: int|
            0 <= i < chunks(lines, page_size).len() ==> 1 <= (#[trigger] chunks(
                lines,
                page_size,
            )[i]).len() <= page_size,
    decreases lines.len(),
{
    let c = chunks(lines, page_size);
    if lines.len() == 0 {
    } else if lines.len() <= page_size {
        assert(c =~= seq![lines]);
        assert(c.drop_first() =~= Seq::<Seq<(Seq<char>, nat)>>::empty());
        assert(concat_all(c.drop_first()) =~= Seq::<(Seq<char>, nat)>::empty());
        assert(c[0] == lines);
        assert(concat_all(c) =~= lines + Seq::<(Seq<char>, nat)>::empty());
        assert(lines + Seq::<(Seq<char>, nat)>::empty() =~= lines);
    } else {
        let rest = lines.skip(page_size as int);
        lemma_chunks(rest, page_size);
        assert(c.drop_first() =~= chunks(rest, page_size));
        assert(c[0] == lines.take(page_size as int));
        assert(concat_all(c) =~= lines.take(page_size as int) + rest);
        assert(lines =~= lines.take(page_size as int) + rest);
        assert forall|i: int| 0 <= i < c.len() implies 1 <= (#[trigger] c[i]).len() <= page_size by {
            if i > 0 {
                assert(c[i] == chunks(rest, page_size)[i - 1]);
            }
        }
    }
}

proof fn lemma_chunk_pages(lines: Seq<(Seq<char>, nat)>, page_size: nat)
    requires
        page_size > 0,
    ensures
        chunks(lines, page_size).map_values(|c: Seq<(Seq<char>, nat)>| page_of(c)).map_values(
            |p: PageView| p.0,
        ) == chunks(lines, page_size),
{
    assert(chunks(lines, page_size).map_values(|c: Seq<(Seq<char>, nat)>| page_of(c)).map_values(
        |p: PageView| p.0,
    ) =~= chunks(lines, page_size));
}

/// Pagination keeps every line, in order: the lines of the pages, page
/// after page, are the lines of the layout, section after section.
pub proof fn law_pages_keep_lines(sections: Seq<SectionView>, page_size: nat)
    requires
        page_size > 0,
    ensures
        page_lines(basic_pages(sections, page_size)) == flat_lines(sections),
    decreases sections.len(),
{
    if sections.len() > 0 {
        let p = sections.drop_last();
        law_pages_keep_lines(p, page_size);
        let lines = sections.last().1;
        let f = |c: Seq<(Seq<char>, nat)>| page_of(c);
        let g = |pg: PageView| pg.0;
        let a = basic_pages(p, page_size);
        let b = chunks(lines, page_size).map_values(f);
        assert((a + b).map_values(g) =~= a.map_values(g) + b.map_values(g));
        lemma_chunk_pages(lines, page_size);
        lemma_concat_all_append(a.map_values(g), b.map_values(g));
        lemma_chunks(lines, page_size);
    }
}

/// Every page holds at least one line and at most `page_size`.
pub proof fn law_page_sizes(sections: Seq<SectionView>, page_size: nat)
    requires
        page_size > 0,
    ensures
        forall|i: int|
            0 <= i < basic_pages(sections, page_size).len() ==> 1 <= (#[trigger] basic_pages(
                sections,
                page_size,
            )[i]).0.len() <= page_size,
    decreases sections.len(),
{
    if sections.len() > 0 {
        let p = sections.drop_last();
        law_page_sizes(p, page_size);
        lemma_chunks(sections.last().1, page_size);
        let a = basic_pages(p, page_size);
        let c = chunks(sections.last().1, page_size);
        let all = basic_pages(sections, page_size);
        assert forall|i: int| 0 <= i < all.len() implies 1 <= (#[trigger] all[i]).0.len()
            <= page_size by {
            if i < a.len() {
                assert(all[i] == a[i]);
            } else {
                assert(all[i] == page_of(c[i - a.len()]));
            }
        }
    }
}

/// Starts of the pages of `lines`: each is the offset of one of the lines,
/// and they strictly increase when the offsets do.
proof fn lemma_chunk_starts(lines: Seq<(Seq<char>, nat)>, page_size: nat)
    requires
        page_size > 0,
        forall|i: int, j: int| 0 <= i < j < lines.len() ==> #[trigger] lines[i].1 < #[trigger] lines[j].1,
    ensures
        ({
            let s = page_starts(
                chunks(lines, page_size).map_values(|c: Seq<(Seq<char>, nat)>| page_of(c)),
            );
            &&& strictly_increasing(s)
            &&& among_offsets(s, lines)
        }),
    decreases lines.len(),
{
    let f = |c: Seq<(Seq<char>, nat)>| page_of(c);
    let s = page_starts(chunks(lines, page_size).map_values(f));
    if lines.len() == 0 {
    } else if lines.len() <= page_size {
        assert(chunks(lines, page_size) =~= seq![lines]);
        assert(s =~= seq![lines[0].1]);
        assert(s[0] == lines[0].1);
    } else {
        let rest = lines.skip(page_size as int);
        assert forall|i: int, j: int| 0 <= i < j < rest.len() implies #[trigger] rest[i].1
            < #[trigger] rest[j].1 by {
            assert(rest[i] == lines[i + page_size]);
            assert(rest[j] == lines[j + page_size]);
        }
        lemma_chunk_starts(rest, page_size);
        let rs = page_starts(chunks(rest, page_size).map_values(f));
        assert(chunks(lines, page_size) =~= seq![lines.take(page_size as int)] + chunks(
            rest,
            page_size,
        ));
        assert(s =~= seq![lines[0].1] + rs);
        assert forall|i: int| 0 <= i < s.len() implies #[trigger] is_offset_of(s[i], lines) by {
            if i == 0 {
                assert(s[0] == lines[0].1);
            } else {
                assert(s[i] == rs[i - 1]);
                assert(is_offset_of(rs[i - 1], rest));
                let j = choose|j: int| 0 <= j < rest.len() && rs[i - 1] == rest[j].1;
                assert(rest[j] == lines[j + page_size]);
            }
        }
        assert forall|i: int, j: int| 0 <= i < j < s.len() implies #[trigger] s[i] < #[trigger] s[j] by {
            assert(s[j] == rs[j - 1]);
            assert(is_offset_of(rs[j - 1], rest));
            let jj = choose|jj: int| 0 <= jj < rest.len() && rs[j - 1] == rest[jj].1;
            assert(rest[jj] == lines[jj + page_size]);
            if i == 0 {
                assert(lines[0].1 < lines[jj + page_size].1);
            } else {
                assert(s[i] == rs[i - 1]);
            }
        }
    }
}

/// Page starts strictly increase when line offsets do, and each is a line's
/// offset.
proof fn lemma_page_starts(sections: Seq<SectionView>, page_size: nat)
    requires
        page_size > 0,
        forall|i: int, j: int|
            0 <= i < j < flat_lines(sections).len() ==> #[trigger] flat_lines(sections)[i].1
                < #[trigger] flat_lines(sections)[j].1,
    ensures
        strictly_increasing(page_starts(basic_pages(sections, page_size))),
        among_offsets(page_starts(basic_pages(sections, page_size)), flat_lines(sections)),
    decreases sections.len(),
{
    if sections.len() == 0 {
        assert(page_starts(basic_pages(sections, page_size)).len() == 0);
    } else {
        let p = sections.drop_last();
        let lines = sections.last().1;
        let fl = flat_lines(sections);
        let pl = flat_lines(p);
        assert(fl == pl + lines);
        assert forall|i: int, j: int| 0 <= i < j < pl.len() implies #[trigger] pl[i].1
            < #[trigger] pl[j].1 by {
            assert(pl[i] == fl[i] && pl[j] == fl[j]);
        }
        assert forall|i: int, j: int| 0 <= i < j < lines.len() implies #[trigger] lines[i].1
            < #[trigger] lines[j].1 by {
            assert(lines[i] == fl[i + pl.len()] && lines[j] == fl[j + pl.len()]);
        }
        lemma_page_starts(p, page_size);
        lemma_chunk_starts(lines, page_size);
        let f = |c: Seq<(Seq<char>, nat)>| page_of(c);
        let a = page_starts(basic_pages(p, page_size));
        let b = page_starts(chunks(lines, page_size).map_values(f));
        let s = page_starts(basic_pages(sections, page_size));
        assert(s =~= a + b);
        assert forall|i: int| 0 <= i < s.len() implies #[trigger] is_offset_of(s[i], fl) by {
            if i < a.len() {
                assert(s[i] == a[i]);
                assert(is_offset_of(a[i], pl));
                let j = choose|j: int| 0 <= j < pl.len() && a[i] == pl[j].1;
                assert(fl[j] == pl[j]);
                assert(s[i] == fl[j].1);
            } else {
                assert(s[i] == b[i - a.len()]);
                assert(is_offset_of(b[i - a.len()], lines));
                let j = choose|j: int| 0 <= j < lines.len() && b[i - a.len()] == lines[j].1;
                assert(fl[j + pl.len()] == lines[j]);
                assert(s[i] == fl[j + pl.len()].1);
            }
        }
        assert forall|i: int, j: int| 0 <= i < j < s.len() implies #[trigger] s[i] < #[trigger] s[j] by {
            if j < a.len() {
                assert(s[i] == a[i] && s[j] == a[j]);
            } else if i >= a.len() {
                assert(s[i] == b[i - a.len()] && s[j] == b[j - a.len()]);
            } else {
                assert(s[i] == a[i] && s[j] == b[j - a.len()]);
                assert(is_offset_of(a[i], pl));
                assert(is_offset_of(b[j - a.len()], lines));
                let ji = choose|ji: int| 0 <= ji < pl.len() && a[i] == pl[ji].1;
                let jj = choose|jj: int| 0 <= jj < lines.len() && b[j - a.len()] == lines[jj].1;
                assert(fl[ji] == pl[ji]);
                assert(fl[jj + pl.len()] == lines[jj]);
            }
        }
    }
}

/// A strictly increasing sequence of naturals has `s[k] >= k`.
proof fn lemma_increasing_at_least_index(s: Seq<nat>, k: int)
    requires
        strictly_increasing(s),
        0 <= k < s.len(),
    ensures
        s[k] >= k,
    decreases k,
{
    if k > 0 {
        lemma_increasing_at_least_index(s, k - 1);
        assert(s[k - 1] < s[k]);
    }
}

/// With strictly increasing starts, the lookup takes each page's start
/// back to that page's number, and knows no other offset.
pub proof fn law_offset_lookup_inverts(starts: Seq<nat>)
    requires
        strictly_increasing(starts),
        forall|i: int| 0 <= i < starts.len() ==> #[trigger] starts[i] <= usize::MAX,
    ensures
        forall|k: int|
            0 <= k < starts.len() ==> offset_lookup(starts).contains_key(#[trigger] starts[k] as usize)
                && offset_lookup(starts)[starts[k] as usize] == k,
        forall|o: usize|
            #[trigger] offset_lookup(starts).contains_key(o) ==> exists|k: int|
                0 <= k < starts.len() && starts[k] == o,
    decreases starts.len(),
{
    if starts.len() > 0 {
        let p = starts.drop_last();
        assert forall|i: int, j: int| 0 <= i < j < p.len() implies #[trigger] p[i] < #[trigger] p[j] by {
            assert(p[i] == starts[i] && p[j] == starts[j]);
        }
        assert forall|i: int| 0 <= i < p.len() implies #[trigger] p[i] <= usize::MAX by {
            assert(p[i] == starts[i]);
        }
        law_offset_lookup_inverts(p);
        let n = starts.len() - 1;
        lemma_increasing_at_least_index(starts, n);
        assert(starts.last() == starts[n]);
        assert(n <= usize::MAX);
        assert forall|k: int| 0 <= k < starts.len() implies offset_lookup(starts).contains_key(
            #[trigger] starts[k] as usize,
        ) && offset_lookup(starts)[starts[k] as usize] == k by {
            if k < n {
                assert(p[k] == starts[k]);
                assert(starts[k] < starts[n]);
                assert(starts[k] as usize != starts[n] as usize);
            }
        }
        assert forall|o: usize| #[trigger] offset_lookup(starts).contains_key(o) implies exists|k: int|
            0 <= k < starts.len() && starts[k] == o by {
            if o != starts[n] as usize {
                assert(offset_lookup(p).contains_key(o));
                let k = choose|k: int| 0 <= k < p.len() && p[k] == o;
                assert(starts[k] == p[k]);
            } else {
                assert(starts[n] == o);
            }
        }
    }
}

/// Over a laid-out book, page starts strictly increase, and the page
/// lookup takes every page's start back to that page: a bookmark kept as a
/// page start reopens the page.
pub proof fn law_book_pages_found_by_start(
    sections: Seq<(Seq<char>, Seq<char>)>,
    max_width: nat,
    page_size: nat,
)
    requires
        page_size > 0,
        sections_bytes(sections) <= usize::MAX,
    ensures
        strictly_increasing(page_starts(basic_pages(basic_layout(sections, max_width, 0), page_size))),
        ({
            let starts = page_starts(basic_pages(basic_layout(sections, max_width, 0), page_size));
            forall|k: int|
                0 <= k < starts.len() ==> offset_lookup(starts).contains_key(
                    #[trigger] starts[k] as usize,
                ) && offset_lookup(starts)[starts[k] as usize] == k
        }),
{
    let layout = basic_layout(sections, max_width, 0);
    law_layout_offsets_increase(sections, max_width, 0);
    let fl = flat_lines(layout);
    assert(increasing_within(fl, 0, sections_bytes(sections)));
    lemma_page_starts(layout, page_size);
    let starts = page_starts(basic_pages(layout, page_size));
    assert forall|i: int| 0 <= i < starts.len() implies #[trigger] starts[i] <= usize::MAX by {
        assert(is_offset_of(starts[i], fl));
        let j = choose|j: int| 0 <= j < fl.len() && starts[i] == fl[j].1;
        assert(fl[j].1 < sections_bytes(sections));
    }
    law_offset_lookup_inverts(starts);
}

} // verus!
