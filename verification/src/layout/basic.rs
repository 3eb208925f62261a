//! The basic layout: every section is split at newlines and each piece is
//! word-wrapped; offsets run on across pieces and sections.

use vstd::prelude::*;
use crate::common::book::{Book, BookSection};
use crate::common::line::Line;
use crate::layout::wrap::{wrap_lines, wrap_words_to_next_line};
use crate::layout::{
    lines_within, sections_bytes, LayoutEngine, LayoutOutput, LayoutSection, SectionView,
};
use crate::text::{
    byte_len, char_utf8_width, lemma_byte_len_prefix, lemma_byte_len_push,
    lemma_char_width_bounds, push_char,
};

verus! {

/// The pieces of `s` between newline characters (`str::split("\n")`);
/// there is always at least one, possibly empty.
pub open spec fn split_lines(s: Seq<char>) -> Seq<Seq<char>>
    decreases s.len(),
{
    if s.len() == 0 {
        seq![Seq::empty()]
    } else {
        let p = split_lines(s.drop_last());
        if s.last() == '\n' {
            p.push(Seq::empty())
        } else {
            p.update(p.len() - 1, p.last().push(s.last()))
        }
    }
}

/// Bytes of `pieces` with one separator byte after each.
pub open spec fn pieces_bytes(pieces: Seq<Seq<char>>) -> nat
    decreases pieces.len(),
{
    if pieces.len() == 0 {
        0
    } else {
        pieces_bytes(pieces.drop_last()) + byte_len(pieces.last()) + 1
    }
}

/// The wrapped lines of consecutive `pieces`, the first starting at `start`.
pub open spec fn layout_pieces(pieces: Seq<Seq<char>>, max_width: nat, start: nat) -> Seq<
    (Seq<char>, nat),
>
    decreases pieces.len(),
{
    if pieces.len() == 0 {
        Seq::empty()
    } else {
        layout_pieces(pieces.drop_last(), max_width, start) + wrap_lines(
            pieces.last(),
            max_width,
            start + pieces_bytes(pieces.drop_last()),
        )
    }
}

/// The lines of one section whose text starts at offset `start`.
pub open spec fn section_lines(content: Seq<char>, max_width: nat, start: nat) -> Seq<
    (Seq<char>, nat),
> {
    layout_pieces(split_lines(content), max_width, start)
}

/// The basic layout of `sections`, the first starting at offset `start`.
pub open spec fn basic_layout(
    sections: Seq<(Seq<char>, Seq<char>)>,
    max_width: nat,
    start: nat,
) -> Seq<SectionView>
    decreases sections.len(),
{
    if sections.len() == 0 {
        Seq::empty()
    } else {
        basic_layout(sections.drop_last(), max_width, start).push(
            (
                sections.last().0,
                section_lines(
                    sections.last().1,
                    max_width,
                    start + sections_bytes(sections.drop_last()),
                ),
            ),
        )
    }
}

pub proof fn lemma_split_lines_nonempty(s: Seq<char>)
    ensures
        split_lines(s).len() >= 1,
    decreases s.len(),
{
    if s.len() > 0 {
        lemma_split_lines_nonempty(s.drop_last());
    }
}

/// The pieces of a text and their separators account for every byte of it
/// plus one.
pub proof fn lemma_pieces_bytes_split_lines(s: Seq<char>)
    ensures
        pieces_bytes(split_lines(s)) == byte_len(s) + 1,
    decreases s.len(),
{
    if s.len() == 0 {
        let p = split_lines(s);
        assert(p.drop_last() =~= Seq::<Seq<char>>::empty());
        assert(pieces_bytes(p.drop_last()) == 0);
        assert(byte_len(p.last()) == 0);
    } else {
        let prev = s.drop_last();
        let c = s.last();
        lemma_split_lines_nonempty(prev);
        lemma_pieces_bytes_split_lines(prev);
        assert(prev.push(c) =~= s);
        lemma_byte_len_push(prev, c);
        lemma_char_width_bounds(c);
        let p = split_lines(prev);
        if c == '\n' {
            assert(p.push(Seq::empty()).drop_last() =~= p);
            assert(split_lines(s) == p.push(Seq::empty()));
        } else {
            let q = p.update(p.len() - 1, p.last().push(c));
            assert(q.drop_last() =~= p.drop_last());
            assert(q.last() == p.last().push(c));
            lemma_byte_len_push(p.last(), c);
            assert(pieces_bytes(q) == pieces_bytes(q.drop_last()) + byte_len(q.last()) + 1);
            assert(pieces_bytes(p) == pieces_bytes(p.drop_last()) + byte_len(p.last()) + 1);
        }
    }
}

pub proof fn lemma_sections_bytes_prefix(sections: Seq<(Seq<char>, Seq<char>)>, i: int)
    requires
        0 <= i <= sections.len(),
    ensures
        sections_bytes(sections.take(i)) <= sections_bytes(sections),
    decreases sections.len() - i,
{
    if i < sections.len() {
        lemma_sections_bytes_prefix(sections, i + 1);
        assert(sections.take(i + 1).drop_last() =~= sections.take(i));
    } else {
        assert(sections.take(i) =~= sections);
    }
}

/// Lays out one section whose text starts at offset `*base`, and moves
/// `*base` past it.
fn layout_section(content: &str, max_width: usize, base: &mut usize) -> (lines: Vec<Line>)
    requires
        *old(base) + byte_len(content@) + 1 <= usize::MAX,
    ensures
        lines@.map_values(|l: Line| l@) == section_lines(
            content@,
            max_width as nat,
            *old(base) as nat,
        ),
        *final(base) == *old(base) + byte_len(content@) + 1,
        forall|j: int|
            0 <= j < lines@.len() ==> #[trigger] lines@[j]@.1 + byte_len(lines@[j]@.0) <= *old(
                base,
            ) + byte_len(content@),
{
    broadcast use vstd::string::group_string_axioms;

    let ghost start: nat = *base as nat;
    let mut lines: Vec<Line> = Vec::new();
    let mut piece: String = String::new();
    let mut piece_len: usize = 0;
    let ghost mut seen: Seq<char> = Seq::empty();
    let ghost mut done: Seq<Seq<char>> = Seq::empty();
    proof {
        assert(lines@.map_values(|l: Line| l@) =~= Seq::<(Seq<char>, nat)>::empty());
        assert(split_lines(seen) =~= done.push(piece@));
    }
    for c in it: content.chars()
        invariant
            it.seq() == content@,
            seen == content@.take(it.index()),
            start + byte_len(content@) + 1 <= usize::MAX,
            split_lines(seen) == done.push(piece@),
            lines@.map_values(|l: Line| l@) == layout_pieces(done, max_width as nat, start),
            *base == start + pieces_bytes(done),
            piece_len == byte_len(piece@),
            *base + piece_len == start + byte_len(seen),
            forall|j: int|
                0 <= j < lines@.len() ==> #[trigger] lines@[j]@.1 + byte_len(lines@[j]@.0)
                    <= start + byte_len(seen),
    {
        let ghost prev = seen;
        proof {
            seen = seen.push(c);
            assert(seen.drop_last() =~= prev);
            assert(content@.take(it.index() + 1) =~= seen);
            lemma_byte_len_push(prev, c);
            lemma_char_width_bounds(c);
            lemma_byte_len_prefix(content@, it.index() + 1);
        }
        if c == '\n' {
            let mut wrapped = wrap_words_to_next_line(piece.as_str(), max_width, *base);
            let ghost before = lines@;
            lines.append(&mut wrapped);
            *base = *base + piece_len + 1;
            proof {
                assert(lines@.map_values(|l: Line| l@) =~= before.map_values(|l: Line| l@)
                    + wrap_lines(piece@, max_width as nat, start + pieces_bytes(done)));
                assert(done.push(piece@).drop_last() =~= done);
                done = done.push(piece@);
                assert(split_lines(seen) =~= done.push(Seq::empty()));
            }
            piece = String::new();
            piece_len = 0;
        } else {
            proof {
                lemma_byte_len_push(piece@, c);
                assert(split_lines(seen) =~= done.push(piece@.push(c)));
            }
            push_char(&mut piece, c);
            piece_len = piece_len + char_utf8_width(c);
        }
    }
    proof {
        assert(content@.take(content@.len() as int) =~= content@);
    }
    let mut wrapped = wrap_words_to_next_line(piece.as_str(), max_width, *base);
    let ghost before = lines@;
    lines.append(&mut wrapped);
    *base = *base + piece_len + 1;
    proof {
        assert(lines@.map_values(|l: Line| l@) =~= before.map_values(|l: Line| l@) + wrap_lines(
            piece@,
            max_width as nat,
            start + pieces_bytes(done),
        ));
        assert(done.push(piece@).drop_last() =~= done);
    }
    lines
}

#[derive(Debug)]
pub struct BasicLayout {
    sections: Vec<LayoutSection>,
}

impl BasicLayout {
    pub fn new(sections: Vec<LayoutSection>) -> (l: BasicLayout)
        ensures
            l.sections_view() == sections@.map_values(|s: LayoutSection| s@),
    {
        BasicLayout { sections }
    }
}

impl LayoutOutput for BasicLayout {
    closed spec fn sections_view(&self) -> Seq<SectionView> {
        self.sections@.map_values(|s: LayoutSection| s@)
    }

    fn get_all_sections(&self) -> (r: &Vec<LayoutSection>) {
        &self.sections
    }
}

impl LayoutEngine for BasicLayout {
    type OutputLayout = BasicLayout;

    open spec fn layout_of(max_width: nat, sections: Seq<(Seq<char>, Seq<char>)>) -> Seq<
        SectionView,
    > {
        basic_layout(sections, max_width, 0)
    }

    fn create_layout(max_width: usize, book: &Book) -> (out: BasicLayout) {
        let sections: &Vec<BookSection> = book.get_all_sections();
        let ghost secs = book@.sections;
        let mut base_offset: usize = 0;
        let mut out: Vec<LayoutSection> = Vec::new();
        for i in 0..sections.len()
            invariant
                secs == sections@.map_values(|s: BookSection| s@),
                sections_bytes(secs) <= usize::MAX,
                out@.map_values(|s: LayoutSection| s@) == basic_layout(
                    secs.take(i as int),
                    max_width as nat,
                    0,
                ),
                base_offset == sections_bytes(secs.take(i as int)),
                lines_within(out@.map_values(|s: LayoutSection| s@), base_offset as nat),
        {
            let section = &sections[i];
            proof {
                assert(secs.take(i + 1).drop_last() =~= secs.take(i as int));
                assert(secs.take(i + 1).last() == section@);
                lemma_sections_bytes_prefix(secs, i + 1);
            }
            let lines = layout_section(section.get_content(), max_width, &mut base_offset);
            let ghost before = out@;
            out.push(LayoutSection::new(String::from_str(section.get_id()), lines));
            proof {
                assert(out@.map_values(|s: LayoutSection| s@) =~= before.map_values(
                    |s: LayoutSection| s@,
                ).push(
                    (
                        section@.0,
                        section_lines(
                            section@.1,
                            max_width as nat,
                            sections_bytes(secs.take(i as int)),
                        ),
                    ),
                ));
            }
        }
        proof {
            assert(secs.take(sections.len() as int) =~= secs);
        }
        let out = BasicLayout { sections: out };
        proof {
            assert(out.sections_view() == out.sections@.map_values(|s: LayoutSection| s@));
        }
        out
    }
}

} // verus!
