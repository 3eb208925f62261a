//! What word wrapping and the basic layout guarantee.

use vstd::prelude::*;
use crate::layout::basic::{
    basic_layout, layout_pieces, lemma_pieces_bytes_split_lines, pieces_bytes, section_lines,
    split_lines,
};
use crate::layout::wrap::{scan_words, split_ws, wrap_fold, wrap_lines, wrap_step, WrapState};
use crate::layout::{sections_bytes, SectionView};
use crate::text::{
    byte_len, is_ws, join_with, lemma_byte_len_concat, lemma_byte_len_push,
    lemma_char_width_bounds,
};

verus! {

/// The texts of `lines`.
pub open spec fn line_texts(lines: Seq<(Seq<char>, nat)>) -> Seq<Seq<char>> {
    lines.map_values(|l: (Seq<char>, nat)| l.0)
}

/// Each line starts one byte after the end of the line before it.
pub open spec fn consecutive(lines: Seq<(Seq<char>, nat)>) -> bool {
    forall|k: int|
        0 <= k < lines.len() - 1 ==> #[trigger] lines[k + 1].1 == lines[k].1 + byte_len(
            lines[k].0,
        ) + 1
}

pub open spec fn all_nonempty(words: Seq<Seq<char>>) -> bool {
    forall|i: int| 0 <= i < words.len() ==> (#[trigger] words[i]).len() > 0
}

pub open spec fn no_ws(w: Seq<char>) -> bool {
    forall|i: int| 0 <= i < w.len() ==> !is_ws(#[trigger] w[i])
}

pub open spec fn state_lines(st: WrapState) -> Seq<(Seq<char>, nat)> {
    st.0.push((st.1, st.2))
}

proof fn lemma_join_push(s: Seq<Seq<char>>, w: Seq<char>, sep: Seq<char>)
    requires
        s.len() > 0,
    ensures
        join_with(s.push(w), sep) == join_with(s, sep) + sep + w,
{
    assert(s.push(w).drop_last() =~= s);
}

proof fn lemma_join_extend_last(s: Seq<Seq<char>>, w: Seq<char>, sep: Seq<char>)
    requires
        s.len() > 0,
    ensures
        join_with(s.drop_last().push(s.last() + sep + w), sep) == join_with(s, sep) + sep + w,
{
    let t = s.drop_last().push(s.last() + sep + w);
    assert(t.drop_last() =~= s.drop_last());
    if s.len() == 1 {
        assert(t.len() == 1);
    } else {
        assert(join_with(t, sep) == join_with(s.drop_last(), sep) + sep + (s.last() + sep + w));
        assert(join_with(t, sep) =~= join_with(s, sep) + sep + w);
    }
}

/// The wrapping of non-empty words: the lines hold the words in order
/// joined by single spaces; each line fits in `max_width` bytes or is a
/// single word; the first line starts at `offset` and each next one a byte
/// after the end of the one before.
proof fn lemma_wrap_fold(words: Seq<Seq<char>>, max_width: nat, offset: nat)
    requires
        all_nonempty(words),
    ensures
        ({
            let st = wrap_fold(words, max_width, offset);
            let lines = state_lines(st);
            &&& (st.1.len() == 0 <==> words.len() == 0)
            &&& (words.len() == 0 ==> st.0.len() == 0)
            &&& join_with(line_texts(lines), " "@) == join_with(words, " "@)
            &&& forall|k: int|
                0 <= k < lines.len() ==> byte_len(#[trigger] lines[k].0) <= max_width
                    || words.contains(lines[k].0)
            &&& lines[0].1 == offset
            &&& consecutive(lines)
        }),
    decreases words.len(),
{
    let st = wrap_fold(words, max_width, offset);
    let lines = state_lines(st);
    if words.len() == 0 {
        assert(line_texts(lines) =~= seq![Seq::<char>::empty()]);
    } else {
        let prev_words = words.drop_last();
        let w = words.last();
        assert(all_nonempty(prev_words)) by {
            assert forall|i: int| 0 <= i < prev_words.len() implies (#[trigger] prev_words[i]).len()
                > 0 by {
                assert(prev_words[i] == words[i]);
            }
        }
        lemma_wrap_fold(prev_words, max_width, offset);
        let prev = wrap_fold(prev_words, max_width, offset);
        let pl = state_lines(prev);
        assert(st == wrap_step(prev, w, max_width));
        assert(words =~= prev_words.push(w));
        assert(w.len() > 0);
        assert forall|x: Seq<char>| prev_words.contains(x) implies words.contains(x) by {
            let i = choose|i: int| 0 <= i < prev_words.len() && prev_words[i] == x;
            assert(words[i] == x);
        }
        assert(words.contains(w)) by {
            assert(words[words.len() - 1] == w);
        }
        if prev.1.len() > 0 && byte_len(prev.1) + 1 + byte_len(w) > max_width {
            assert(lines =~= pl.push((w, prev.2 + byte_len(prev.1) + 1)));
            assert(line_texts(lines) =~= line_texts(pl).push(w));
            lemma_join_push(line_texts(pl), w, " "@);
            lemma_join_push(prev_words, w, " "@);
            assert forall|k: int| 0 <= k < lines.len() - 1 implies #[trigger] lines[k + 1].1
                == lines[k].1 + byte_len(lines[k].0) + 1 by {
                if k < lines.len() - 2 {
                    assert(lines[k + 1] == pl[k + 1]);
                    assert(lines[k] == pl[k]);
                }
            }
            assert forall|k: int| 0 <= k < lines.len() implies byte_len(#[trigger] lines[k].0)
                <= max_width || words.contains(lines[k].0) by {
                if k < lines.len() - 1 {
                    assert(lines[k] == pl[k]);
                }
            }
        } else if prev.1.len() > 0 {
            let joined = prev.1 + seq![' '] + w;
            assert(lines =~= pl.drop_last().push((joined, prev.2)));
            assert(line_texts(lines) =~= line_texts(pl).drop_last().push(
                line_texts(pl).last() + " "@ + w,
            )) by {
                assert(" "@ =~= seq![' ']) by {
                    reveal_strlit(" ");
                }
            }
            lemma_join_extend_last(line_texts(pl), w, " "@);
            lemma_join_push(prev_words, w, " "@);
            lemma_byte_len_concat(prev.1 + seq![' '], w);
            lemma_byte_len_push(prev.1, ' ');
            assert(prev.1 + seq![' '] =~= prev.1.push(' '));
            lemma_char_width_bounds(' ');
            assert forall|k: int| 0 <= k < lines.len() - 1 implies #[trigger] lines[k + 1].1
                == lines[k].1 + byte_len(lines[k].0) + 1 by {
                assert(lines[k] == pl[k]);
                if k < lines.len() - 2 {
                    assert(lines[k + 1] == pl[k + 1]);
                } else {
                    assert(lines[k + 1].1 == pl[k + 1].1);
                }
            }
            assert forall|k: int| 0 <= k < lines.len() implies byte_len(#[trigger] lines[k].0)
                <= max_width || words.contains(lines[k].0) by {
                if k < lines.len() - 1 {
                    assert(lines[k] == pl[k]);
                }
            }
        } else {
            assert(prev_words.len() == 0);
            assert(lines =~= seq![(w, offset)]);
            assert(line_texts(lines) =~= seq![w]);
            assert(words =~= seq![w]);
        }
    }
}

proof fn lemma_scan_words(s: Seq<char>)
    ensures
        all_nonempty(scan_words(s).0),
        forall|i: int| 0 <= i < scan_words(s).0.len() ==> no_ws(#[trigger] scan_words(s).0[i]),
        no_ws(scan_words(s).1),
        byte_len(join_with(scan_words(s).0, " "@)) + (if scan_words(s).0.len() > 0 {
            1int
        } else {
            0
        }) + byte_len(scan_words(s).1) <= byte_len(s),
    decreases s.len(),
{
    if s.len() > 0 {
        let p = s.drop_last();
        let c = s.last();
        lemma_scan_words(p);
        assert(p.push(c) =~= s);
        lemma_byte_len_push(p, c);
        lemma_char_width_bounds(c);
        let (done, cur) = scan_words(p);
        if is_ws(c) {
            if cur.len() > 0 {
                let d2 = done.push(cur);
                assert(scan_words(s).0 == d2);
                if done.len() > 0 {
                    lemma_join_push(done, cur, " "@);
                    lemma_byte_len_concat(join_with(done, " "@) + " "@, cur);
                    lemma_byte_len_concat(join_with(done, " "@), " "@);
                    assert(byte_len(" "@) == 1) by {
                        reveal_strlit(" ");
                        assert(" "@ =~= seq![' ']);
                        crate::text::lemma_byte_len_single(' ');
                    }
                } else {
                    assert(d2 =~= seq![cur]);
                }
                assert forall|i: int| 0 <= i < d2.len() implies (#[trigger] d2[i]).len() > 0
                    && no_ws(d2[i]) by {
                    if i < done.len() {
                        assert(d2[i] == done[i]);
                    }
                }
                assert(scan_words(s).1 =~= Seq::<char>::empty());
            }
        } else {
            assert(scan_words(s).1 == cur.push(c));
            lemma_byte_len_push(cur, c);
            assert forall|i: int| 0 <= i < cur.push(c).len() implies !is_ws(
                #[trigger] cur.push(c)[i],
            ) by {
                if i < cur.len() {
                    assert(cur.push(c)[i] == cur[i]);
                }
            }
        }
    }
}

/// The words of a text are non-empty, hold no whitespace, and joined with
/// single spaces take no more bytes than the text.
pub proof fn lemma_split_ws(s: Seq<char>)
    ensures
        all_nonempty(split_ws(s)),
        forall|i: int| 0 <= i < split_ws(s).len() ==> no_ws(#[trigger] split_ws(s)[i]),
        byte_len(join_with(split_ws(s), " "@)) <= byte_len(s),
{
    lemma_scan_words(s);
    let (done, cur) = scan_words(s);
    if cur.len() > 0 {
        let w = done.push(cur);
        assert forall|i: int| 0 <= i < w.len() implies (#[trigger] w[i]).len() > 0 && no_ws(w[i]) by {
            if i < done.len() {
                assert(w[i] == done[i]);
            }
        }
        if done.len() > 0 {
            lemma_join_push(done, cur, " "@);
            lemma_byte_len_concat(join_with(done, " "@) + " "@, cur);
            lemma_byte_len_concat(join_with(done, " "@), " "@);
            assert(byte_len(" "@) == 1) by {
                reveal_strlit(" ");
                assert(" "@ =~= seq![' ']);
                crate::text::lemma_byte_len_single(' ');
            }
        } else {
            assert(w =~= seq![cur]);
        }
    }
}

/// With consecutive lines from `offset`, the last line ends where the
/// lines joined by single spaces would.
proof fn lemma_consecutive_end(lines: Seq<(Seq<char>, nat)>, offset: nat)
    requires
        lines.len() > 0,
        lines[0].1 == offset,
        consecutive(lines),
    ensures
        lines.last().1 + byte_len(lines.last().0) == offset + byte_len(
            join_with(line_texts(lines), " "@),
        ),
        forall|k: int| 0 <= k < lines.len() ==> offset <= #[trigger] lines[k].1,
    decreases lines.len(),
{
    if lines.len() == 1 {
        assert(line_texts(lines) =~= seq![lines[0].0]);
    } else {
        let p = lines.drop_last();
        assert(consecutive(p)) by {
            assert forall|k: int| 0 <= k < p.len() - 1 implies #[trigger] p[k + 1].1 == p[k].1
                + byte_len(p[k].0) + 1 by {
                assert(p[k + 1] == lines[k + 1]);
                assert(p[k] == lines[k]);
            }
        }
        lemma_consecutive_end(p, offset);
        assert(line_texts(lines) =~= line_texts(p).push(lines.last().0));
        lemma_join_push(line_texts(p), lines.last().0, " "@);
        lemma_byte_len_concat(join_with(line_texts(p), " "@) + " "@, lines.last().0);
        lemma_byte_len_concat(join_with(line_texts(p), " "@), " "@);
        assert(byte_len(" "@) == 1) by {
            reveal_strlit(" ");
            assert(" "@ =~= seq![' ']);
            crate::text::lemma_byte_len_single(' ');
        }
        let j = lines.len() - 2;
        assert(lines[j + 1].1 == lines[j].1 + byte_len(lines[j].0) + 1);
        assert forall|k: int| 0 <= k < lines.len() implies offset <= #[trigger] lines[k].1 by {
            if k < lines.len() - 1 {
                assert(lines[k] == p[k]);
            }
        }
    }
}

/// Wrapping keeps every word: the wrapped lines joined with single spaces
/// are the line's words joined with single spaces. There is always at
/// least one line, and when the line has words no wrapped line is empty.
pub proof fn law_wrap_keeps_words(line: Seq<char>, max_width: nat, offset: nat)
    ensures
        wrap_lines(line, max_width, offset).len() >= 1,
        join_with(line_texts(wrap_lines(line, max_width, offset)), " "@) == join_with(
            split_ws(line),
            " "@,
        ),
        split_ws(line).len() > 0 ==> forall|k: int|
            0 <= k < wrap_lines(line, max_width, offset).len() ==> (#[trigger] wrap_lines(
                line,
                max_width,
                offset,
            )[k]).0.len() > 0,
{
    lemma_split_ws(line);
    lemma_wrap_fold(split_ws(line), max_width, offset);
    let st = wrap_fold(split_ws(line), max_width, offset);
    let lines = wrap_lines(line, max_width, offset);
    if split_ws(line).len() > 0 {
        lemma_wrap_fold_nonempty_lines(split_ws(line), max_width, offset);
    }
}

proof fn lemma_wrap_fold_nonempty_lines(words: Seq<Seq<char>>, max_width: nat, offset: nat)
    requires
        all_nonempty(words),
        words.len() > 0,
    ensures
        forall|k: int|
            0 <= k < state_lines(wrap_fold(words, max_width, offset)).len() ==> (
            #[trigger] state_lines(wrap_fold(words, max_width, offset))[k]).0.len() > 0,
    decreases words.len(),
{
    lemma_wrap_fold(words, max_width, offset);
    let prev_words = words.drop_last();
    assert(all_nonempty(prev_words)) by {
        assert forall|i: int| 0 <= i < prev_words.len() implies (#[trigger] prev_words[i]).len()
            > 0 by {
            assert(prev_words[i] == words[i]);
        }
    }
    lemma_wrap_fold(prev_words, max_width, offset);
    let prev = wrap_fold(prev_words, max_width, offset);
    let pl = state_lines(prev);
    let lines = state_lines(wrap_fold(words, max_width, offset));
    if prev_words.len() > 0 {
        lemma_wrap_fold_nonempty_lines(prev_words, max_width, offset);
    }
    assert(words.last() == words[words.len() - 1]);
    assert forall|k: int| 0 <= k < lines.len() implies (#[trigger] lines[k]).0.len() > 0 by {
        if k < lines.len() - 1 {
            assert(lines[k] == pl[k] || (k == lines.len() - 1));
        }
    }
}

/// A wrapped line is never wider than `max_width` bytes unless it is a
/// single word of the line, too long to share a line.
pub proof fn law_wrap_fits_width(line: Seq<char>, max_width: nat, offset: nat)
    ensures
        forall|k: int|
            0 <= k < wrap_lines(line, max_width, offset).len() ==> byte_len(
                (#[trigger] wrap_lines(line, max_width, offset)[k]).0,
            ) <= max_width || split_ws(line).contains(wrap_lines(line, max_width, offset)[k].0),
{
    lemma_split_ws(line);
    lemma_wrap_fold(split_ws(line), max_width, offset);
}

/// The first wrapped line starts at `offset`, each next one a byte after
/// the end of the line before; offsets strictly increase, and the last
/// line ends no later than the line does.
pub proof fn law_wrap_offsets(line: Seq<char>, max_width: nat, offset: nat)
    ensures
        wrap_lines(line, max_width, offset)[0].1 == offset,
        consecutive(wrap_lines(line, max_width, offset)),
        forall|k: int|
            0 <= k < wrap_lines(line, max_width, offset).len() ==> offset <= (
            #[trigger] wrap_lines(line, max_width, offset)[k]).1 && wrap_lines(
                line,
                max_width,
                offset,
            )[k].1 + byte_len(wrap_lines(line, max_width, offset)[k].0) <= offset + byte_len(
                line,
            ),
{
    lemma_split_ws(line);
    lemma_wrap_fold(split_ws(line), max_width, offset);
    let lines = wrap_lines(line, max_width, offset);
    lemma_consecutive_end(lines, offset);
    lemma_consecutive_bounded(lines, (offset + byte_len(line)) as nat);
}

/// In consecutive lines each line ends before the last one does.
proof fn lemma_consecutive_bounded(lines: Seq<(Seq<char>, nat)>, bound: nat)
    requires
        lines.len() > 0,
        consecutive(lines),
        lines.last().1 + byte_len(lines.last().0) <= bound,
    ensures
        forall|k: int|
            0 <= k < lines.len() ==> (#[trigger] lines[k]).1 + byte_len(lines[k].0) <= bound,
    decreases lines.len(),
{
    if lines.len() > 1 {
        let p = lines.drop_last();
        assert(consecutive(p)) by {
            assert forall|k: int| 0 <= k < p.len() - 1 implies #[trigger] p[k + 1].1 == p[k].1
                + byte_len(p[k].0) + 1 by {
                assert(p[k + 1] == lines[k + 1]);
                assert(p[k] == lines[k]);
            }
        }
        let j = lines.len() - 2;
        assert(lines[j + 1].1 == lines[j].1 + byte_len(lines[j].0) + 1);
        lemma_consecutive_bounded(p, bound);
        assert forall|k: int| 0 <= k < lines.len() implies (#[trigger] lines[k]).1 + byte_len(
            lines[k].0,
        ) <= bound by {
            if k < lines.len() - 1 {
                assert(lines[k] == p[k]);
            }
        }
    }
}

/// Offsets strictly increase along `lines`, start at `lo` or later, and
/// every line ends before `hi`.
pub open spec fn increasing_within(lines: Seq<(Seq<char>, nat)>, lo: nat, hi: nat) -> bool {
    &&& forall|i: int, j: int| 0 <= i < j < lines.len() ==> #[trigger] lines[i].1 < #[trigger] lines[j].1
    &&& forall|i: int|
        0 <= i < lines.len() ==> lo <= #[trigger] lines[i].1 && lines[i].1 + byte_len(lines[i].0)
            < hi
}

/// All lines of `sections`, section after section.
pub open spec fn flat_lines(sections: Seq<SectionView>) -> Seq<(Seq<char>, nat)>
    decreases sections.len(),
{
    if sections.len() == 0 {
        Seq::empty()
    } else {
        flat_lines(sections.drop_last()) + sections.last().1
    }
}

proof fn lemma_consecutive_increasing(lines: Seq<(Seq<char>, nat)>)
    requires
        consecutive(lines),
    ensures
        forall|i: int, j: int| 0 <= i < j < lines.len() ==> #[trigger] lines[i].1 < #[trigger] lines[j].1,
    decreases lines.len(),
{
    if lines.len() > 1 {
        let p = lines.drop_last();
        assert(consecutive(p)) by {
            assert forall|k: int| 0 <= k < p.len() - 1 implies #[trigger] p[k + 1].1 == p[k].1
                + byte_len(p[k].0) + 1 by {
                assert(p[k + 1] == lines[k + 1]);
                assert(p[k] == lines[k]);
            }
        }
        lemma_consecutive_increasing(p);
        let n = lines.len() - 1;
        assert(lines[(n - 1) + 1].1 == lines[n - 1].1 + byte_len(lines[n - 1].0) + 1);
        assert forall|i: int, j: int| 0 <= i < j < lines.len() implies #[trigger] lines[i].1
            < #[trigger] lines[j].1 by {
            assert(lines[i] == p[i]);
            if j < n {
                assert(lines[j] == p[j]);
            } else if i < n - 1 {
                assert(p[i].1 < p[n - 1].1);
            }
        }
    }
}

proof fn lemma_concat_increasing(
    a: Seq<(Seq<char>, nat)>,
    b: Seq<(Seq<char>, nat)>,
    lo: nat,
    mid: nat,
    hi: nat,
)
    requires
        increasing_within(a, lo, mid),
        increasing_within(b, mid, hi),
        lo <= mid <= hi,
    ensures
        increasing_within(a + b, lo, hi),
{
    let c = a + b;
    assert forall|i: int, j: int| 0 <= i < j < c.len() implies #[trigger] c[i].1 < #[trigger] c[j].1 by {
        if j < a.len() {
            assert(c[i] == a[i] && c[j] == a[j]);
        } else if i >= a.len() {
            assert(c[i] == b[i - a.len()] && c[j] == b[j - a.len()]);
        } else {
            assert(c[i] == a[i] && c[j] == b[j - a.len()]);
        }
    }
    assert forall|i: int| 0 <= i < c.len() implies lo <= #[trigger] c[i].1 && c[i].1 + byte_len(
        c[i].0,
    ) < hi by {
        if i < a.len() {
            assert(c[i] == a[i]);
        } else {
            assert(c[i] == b[i - a.len()]);
        }
    }
}

/// The wrapped lines of a line starting at `offset` lie within its bytes.
proof fn lemma_wrap_increasing(line: Seq<char>, max_width: nat, offset: nat)
    ensures
        increasing_within(
            wrap_lines(line, max_width, offset),
            offset,
            offset + byte_len(line) + 1,
        ),
{
    law_wrap_offsets(line, max_width, offset);
    lemma_consecutive_increasing(wrap_lines(line, max_width, offset));
}

proof fn lemma_layout_pieces_increasing(pieces: Seq<Seq<char>>, max_width: nat, start: nat)
    ensures
        increasing_within(
            layout_pieces(pieces, max_width, start),
            start,
            start + pieces_bytes(pieces),
        ),
    decreases pieces.len(),
{
    if pieces.len() > 0 {
        let p = pieces.drop_last();
        lemma_layout_pieces_increasing(p, max_width, start);
        let mid = start + pieces_bytes(p);
        lemma_wrap_increasing(pieces.last(), max_width, mid);
        lemma_concat_increasing(
            layout_pieces(p, max_width, start),
            wrap_lines(pieces.last(), max_width, mid),
            start,
            mid,
            start + pieces_bytes(pieces),
        );
    }
}

/// Through a laid-out book, line offsets strictly increase from `start`
/// and every line ends before `start` plus the bytes the layout walks over:
/// a byte offset names at most one line.
pub proof fn law_layout_offsets_increase(
    sections: Seq<(Seq<char>, Seq<char>)>,
    max_width: nat,
    start: nat,
)
    ensures
        increasing_within(
            flat_lines(basic_layout(sections, max_width, start)),
            start,
            start + sections_bytes(sections),
        ),
    decreases sections.len(),
{
    if sections.len() > 0 {
        let p = sections.drop_last();
        law_layout_offsets_increase(p, max_width, start);
        let mid = start + sections_bytes(p);
        let content = sections.last().1;
        lemma_layout_pieces_increasing(split_lines(content), max_width, mid);
        lemma_pieces_bytes_split_lines(content);
        let l = basic_layout(sections, max_width, start);
        assert(l.drop_last() == basic_layout(p, max_width, start));
        assert(l.last().1 == section_lines(content, max_width, mid));
        lemma_concat_increasing(
            flat_lines(basic_layout(p, max_width, start)),
            section_lines(content, max_width, mid),
            start,
            mid,
            start + sections_bytes(sections),
        );
    }
}

/// Each section of a laid-out book starts where the text before it ends,
/// counting one byte after each section's text; a section's first line
/// starts exactly there.
pub proof fn law_section_starts(
    sections: Seq<(Seq<char>, Seq<char>)>,
    max_width: nat,
    start: nat,
    k: int,
)
    requires
        0 <= k < sections.len(),
    ensures
        basic_layout(sections, max_width, start).len() == sections.len(),
        basic_layout(sections, max_width, start)[k].0 == sections[k].0,
        basic_layout(sections, max_width, start)[k].1.len() > 0,
        basic_layout(sections, max_width, start)[k].1[0].1 == start + sections_bytes(
            sections.take(k),
        ),
    decreases sections.len(),
{
    lemma_layout_len(sections, max_width, start);
    if k < sections.len() - 1 {
        law_section_starts(sections.drop_last(), max_width, start, k);
        assert(sections.drop_last().take(k) =~= sections.take(k));
        assert(sections.drop_last()[k] == sections[k]);
    } else {
        assert(sections.take(k) =~= sections.drop_last());
        let content = sections.last().1;
        let s0 = start + sections_bytes(sections.drop_last());
        crate::layout::basic::lemma_split_lines_nonempty(content);
        lemma_first_piece_first_line(split_lines(content), max_width, s0);
    }
}

proof fn lemma_layout_len(sections: Seq<(Seq<char>, Seq<char>)>, max_width: nat, start: nat)
    ensures
        basic_layout(sections, max_width, start).len() == sections.len(),
    decreases sections.len(),
{
    if sections.len() > 0 {
        lemma_layout_len(sections.drop_last(), max_width, start);
    }
}

proof fn lemma_first_piece_first_line(pieces: Seq<Seq<char>>, max_width: nat, start: nat)
    requires
        pieces.len() > 0,
    ensures
        layout_pieces(pieces, max_width, start).len() > 0,
        layout_pieces(pieces, max_width, start)[0].1 == start,
    decreases pieces.len(),
{
    law_wrap_offsets(pieces.last(), max_width, start + pieces_bytes(pieces.drop_last()));
    law_wrap_keeps_words(pieces.last(), max_width, start + pieces_bytes(pieces.drop_last()));
    if pieces.len() > 1 {
        lemma_first_piece_first_line(pieces.drop_last(), max_width, start);
    } else {
        assert(pieces.drop_last().len() == 0);
        assert(layout_pieces(pieces.drop_last(), max_width, start).len() == 0);
        assert(layout_pieces(pieces, max_width, start) =~= wrap_lines(pieces.last(), max_width, start));
    }
}


/// The first word of a wrapped line: its text up to the first space.
pub open spec fn first_word(s: Seq<char>) -> Seq<char>
    decreases s.len(),
{
    if s.len() == 0 || s[0] == ' ' {
        Seq::empty()
    } else {
        seq![s[0]] + first_word(s.drop_first())
    }
}

/// Greedy line breaking: a line ends only because the first word of the
/// next line would not fit after it, one space between, in `max_width`
/// bytes.
pub open spec fn greedy(lines: Seq<(Seq<char>, nat)>, max_width: nat) -> bool {
    forall|k: int|
        0 <= k < lines.len() - 1 ==> byte_len(lines[k].0) + 1 + byte_len(
            first_word(#[trigger] lines[k + 1].0),
        ) > max_width
}

proof fn lemma_first_word_join(a: Seq<char>, b: Seq<char>)
    ensures
        first_word(a + seq![' '] + b) == first_word(a),
    decreases a.len(),
{
    let s = a + seq![' '] + b;
    if a.len() == 0 {
        assert(s[0] == ' ');
    } else {
        assert(s[0] == a[0]);
        assert(s.drop_first() =~= a.drop_first() + seq![' '] + b);
        lemma_first_word_join(a.drop_first(), b);
    }
}

proof fn lemma_first_word_of_word(w: Seq<char>)
    requires
        no_ws(w),
    ensures
        first_word(w) == w,
    decreases w.len(),
{
    if w.len() > 0 {
        assert(!is_ws(w[0]));
        assert(is_ws(' '));
        assert(no_ws(w.drop_first())) by {
            assert forall|i: int| 0 <= i < w.drop_first().len() implies !is_ws(
                #[trigger] w.drop_first()[i],
            ) by {
                assert(w.drop_first()[i] == w[i + 1]);
            }
        }
        lemma_first_word_of_word(w.drop_first());
        assert(w =~= seq![w[0]] + w.drop_first());
    }
}

proof fn lemma_first_word_bytes(s: Seq<char>)
    ensures
        byte_len(first_word(s)) <= byte_len(s),
    decreases s.len(),
{
    if s.len() > 0 && s[0] != ' ' {
        lemma_first_word_bytes(s.drop_first());
        assert(s =~= seq![s[0]] + s.drop_first());
        lemma_byte_len_concat(seq![s[0]], s.drop_first());
        lemma_byte_len_concat(seq![s[0]], first_word(s.drop_first()));
    }
}

proof fn lemma_wrap_fold_greedy(words: Seq<Seq<char>>, max_width: nat, offset: nat)
    requires
        all_nonempty(words),
        forall|i: int| 0 <= i < words.len() ==> no_ws(#[trigger] words[i]),
    ensures
        greedy(state_lines(wrap_fold(words, max_width, offset)), max_width),
    decreases words.len(),
{
    if words.len() > 0 {
        let prev_words = words.drop_last();
        let w = words.last();
        assert(all_nonempty(prev_words)) by {
            assert forall|i: int| 0 <= i < prev_words.len() implies (#[trigger] prev_words[i]).len()
                > 0 by {
                assert(prev_words[i] == words[i]);
            }
        }
        assert forall|i: int| 0 <= i < prev_words.len() implies no_ws(#[trigger] prev_words[i]) by {
            assert(prev_words[i] == words[i]);
        }
        assert(no_ws(w)) by {
            assert(w == words[words.len() - 1]);
        }
        lemma_wrap_fold_greedy(prev_words, max_width, offset);
        lemma_wrap_fold(prev_words, max_width, offset);
        let prev = wrap_fold(prev_words, max_width, offset);
        let pl = state_lines(prev);
        let st = wrap_fold(words, max_width, offset);
        assert(st == wrap_step(prev, w, max_width));
        let lines = state_lines(st);
        if prev.1.len() > 0 && byte_len(prev.1) + 1 + byte_len(w) > max_width {
            assert(lines =~= pl.push((w, prev.2 + byte_len(prev.1) + 1)));
            lemma_first_word_of_word(w);
            assert forall|k: int| 0 <= k < lines.len() - 1 implies byte_len(lines[k].0) + 1
                + byte_len(first_word(#[trigger] lines[k + 1].0)) > max_width by {
                assert(lines[k] == pl[k]);
                if k < pl.len() - 1 {
                    assert(lines[k + 1] == pl[k + 1]);
                } else {
                    assert(lines[k + 1].0 == w);
                }
            }
        } else if prev.1.len() > 0 {
            let joined = prev.1 + seq![' '] + w;
            assert(lines =~= pl.drop_last().push((joined, prev.2)));
            lemma_first_word_join(prev.1, w);
            assert forall|k: int| 0 <= k < lines.len() - 1 implies byte_len(lines[k].0) + 1
                + byte_len(first_word(#[trigger] lines[k + 1].0)) > max_width by {
                assert(lines[k] == pl[k]);
                if k < pl.len() - 2 {
                    assert(lines[k + 1] == pl[k + 1]);
                } else {
                    assert(pl[k + 1].0 == prev.1);
                    assert(lines[k + 1].0 == joined);
                }
            }
        } else {
            assert(prev_words.len() == 0);
            assert(lines.len() == 1);
        }
    }
}

/// Wrapping is greedy: every wrapped line but the last is followed by a
/// line whose first word would not fit after it in `max_width` bytes, so a
/// line is never broken while the next word still fits.
pub proof fn law_wrap_is_greedy(line: Seq<char>, max_width: nat, offset: nat)
    ensures
        greedy(wrap_lines(line, max_width, offset), max_width),
{
    lemma_split_ws(line);
    lemma_wrap_fold_greedy(split_ws(line), max_width, offset);
    assert(wrap_lines(line, max_width, offset) == state_lines(
        wrap_fold(split_ws(line), max_width, offset),
    ));
}

proof fn lemma_join_two_first(list: Seq<Seq<char>>)
    requires
        list.len() >= 2,
    ensures
        byte_len(join_with(list, " "@)) >= byte_len(list[0]) + 1 + byte_len(list[1]),
    decreases list.len(),
{
    assert(byte_len(" "@) == 1) by {
        reveal_strlit(" ");
        assert(" "@ =~= seq![' ']);
        crate::text::lemma_byte_len_single(' ');
    }
    let p = list.drop_last();
    lemma_byte_len_concat(join_with(p, " "@) + " "@, list.last());
    lemma_byte_len_concat(join_with(p, " "@), " "@);
    if list.len() == 2 {
        assert(p =~= seq![list[0]]);
        assert(join_with(p, " "@) == list[0]);
    } else {
        lemma_join_two_first(p);
        assert(p[0] == list[0] && p[1] == list[1]);
    }
}

/// A line whose words, one space apart, fit in `max_width` bytes is not
/// broken: it wraps to exactly one line.
pub proof fn law_fitting_line_is_not_broken(line: Seq<char>, max_width: nat, offset: nat)
    requires
        byte_len(join_with(split_ws(line), " "@)) <= max_width,
    ensures
        wrap_lines(line, max_width, offset).len() == 1,
{
    law_wrap_keeps_words(line, max_width, offset);
    law_wrap_is_greedy(line, max_width, offset);
    let lines = wrap_lines(line, max_width, offset);
    if lines.len() >= 2 {
        let t = line_texts(lines);
        assert(t[0] == lines[0].0 && t[1] == lines[1].0);
        lemma_join_two_first(t);
        lemma_first_word_bytes(lines[1].0);
        assert(byte_len(lines[0].0) + 1 + byte_len(first_word(lines[1].0)) > max_width);
    }
}

} // verus!
