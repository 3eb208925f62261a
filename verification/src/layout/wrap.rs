//! Greedy word wrapping of one line of text.

use vstd::prelude::*;
use crate::common::line::Line;
use crate::layout::laws::{greedy, law_wrap_is_greedy};
use crate::text::{
    byte_len, char_utf8_width, is_whitespace, is_ws, lemma_byte_len_at_least_len,
    lemma_byte_len_concat, lemma_byte_len_prefix, lemma_byte_len_push, lemma_char_width_bounds,
    push_char,
};

verus! {

/// Scanning `s` from the left: the whitespace-separated words completed so
/// far and the word still being read at the end of `s`.
pub open spec fn scan_words(s: Seq<char>) -> (Seq<Seq<char>>, Seq<char>)
    decreases s.len(),
{
    if s.len() == 0 {
        (Seq::empty(), Seq::empty())
    } else {
        let (done, cur) = scan_words(s.drop_last());
        let c = s.last();
        if is_ws(c) {
            if cur.len() > 0 {
                (done.push(cur), Seq::empty())
            } else {
                (done, cur)
            }
        } else {
            (done, cur.push(c))
        }
    }
}

/// The maximal runs of non-whitespace characters of `s`, in order
/// (`str::split_whitespace`).
pub open spec fn split_ws(s: Seq<char>) -> Seq<Seq<char>> {
    let (done, cur) = scan_words(s);
    if cur.len() > 0 {
        done.push(cur)
    } else {
        done
    }
}

/// Wrapping state: finished lines with their offsets, the line being
/// filled, and the offset of that line.
pub type WrapState = (Seq<(Seq<char>, nat)>, Seq<char>, nat);

/// Places one word: it joins the current line after a single space unless
/// that would make the line longer than `max_width` bytes, in which case
/// the current line is finished and the word starts the next one. The next
/// line starts one byte after the end of the finished one.
pub open spec fn wrap_step(st: WrapState, word: Seq<char>, max_width: nat) -> WrapState {
    let (done, curr, off) = st;
    if curr.len() > 0 && byte_len(curr) + 1 + byte_len(word) > max_width {
        (done.push((curr, off)), word, off + byte_len(curr) + 1)
    } else if curr.len() > 0 {
        (done, curr + seq![' '] + word, off)
    } else {
        (done, word, off)
    }
}

/// The state after placing `words` in order, starting at `offset`.
pub open spec fn wrap_fold(words: Seq<Seq<char>>, max_width: nat, offset: nat) -> WrapState
    decreases words.len(),
{
    if words.len() == 0 {
        (Seq::empty(), Seq::empty(), offset)
    } else {
        wrap_step(wrap_fold(words.drop_last(), max_width, offset), words.last(), max_width)
    }
}

/// The wrapped lines of `line`: its words placed greedily, then the last,
/// possibly empty, line.
pub open spec fn wrap_lines(line: Seq<char>, max_width: nat, offset: nat) -> Seq<(Seq<char>, nat)> {
    let (done, curr, off) = wrap_fold(split_ws(line), max_width, offset);
    done.push((curr, off))
}

/// Places `word` (of `word_len` bytes) as [`wrap_step`] does.
fn place_word(
    res: &mut Vec<Line>,
    curr: &mut String,
    curr_len: &mut usize,
    off: &mut usize,
    word: String,
    word_len: usize,
    max_width: usize,
)
    requires
        word_len == byte_len(word@),
        word@.len() > 0,
        *old(curr_len) == byte_len(old(curr)@),
        *old(off) + *old(curr_len) + (if *old(curr_len) > 0 { 1int } else { 0 }) + word_len
            <= usize::MAX,
    ensures
        ({
            let st = wrap_step(
                (old(res)@.map_values(|l: Line| l@), old(curr)@, *old(off) as nat),
                word@,
                max_width as nat,
            );
            &&& final(res)@.map_values(|l: Line| l@) == st.0
            &&& final(curr)@ == st.1
            &&& *final(off) == st.2
        }),
        *final(curr_len) == byte_len(final(curr)@),
        *final(curr_len) > 0,
        final(res)@.len() >= old(res)@.len(),
        forall|j: int|
            0 <= j < final(res)@.len() ==> (j < old(res)@.len() && final(res)@[j] == old(res)@[j])
                || final(res)@[j]@.1 + byte_len(final(res)@[j]@.0) <= *old(off) + *old(curr_len),
        *final(off) + *final(curr_len) <= *old(off) + *old(curr_len) + (if *old(curr_len) > 0 {
            1int
        } else {
            0
        }) + word_len,
{
    proof {
        lemma_byte_len_at_least_len(old(curr)@);
        lemma_byte_len_at_least_len(word@);
    }
    let ghost old_res = res@;
    if *curr_len > 0 && *curr_len + 1 + word_len > max_width {
        res.push(Line::new(curr, *off));
        *off = *off + *curr_len + 1;
        *curr = word;
        *curr_len = word_len;
        proof {
            assert(res@.map_values(|l: Line| l@) =~= old_res.map_values(|l: Line| l@).push(
                (old(curr)@, *old(off) as nat),
            ));
        }
    } else if *curr_len > 0 {
        let ghost before = curr@;
        push_char(curr, ' ');
        curr.append(word.as_str());
        proof {
            lemma_byte_len_push(before, ' ');
            lemma_char_width_bounds(' ');
            lemma_byte_len_concat(before.push(' '), word@);
            assert(before.push(' ') + word@ =~= before + seq![' '] + word@);
        }
        *curr_len = *curr_len + 1 + word_len;
    } else {
        *curr = word;
        *curr_len = word_len;
    }
}

/// Wraps the words of `line` into lines of at most `max_width` bytes, a word
/// longer than that standing alone on its line. Runs of whitespace collapse
/// to one space. `byte_offset` is the offset of the line's first byte; each
/// wrapped line records the offset of its own first character.
pub fn wrap_words_to_next_line(line: &str, max_width: usize, byte_offset: usize) -> (res: Vec<Line>)
    requires
        byte_offset + byte_len(line@) <= usize::MAX,
    ensures
        res@.map_values(|l: Line| l@) == wrap_lines(line@, max_width as nat, byte_offset as nat),
        greedy(res@.map_values(|l: Line| l@), max_width as nat),
        forall|j: int|
            0 <= j < res@.len() ==> #[trigger] res@[j]@.1 + byte_len(res@[j]@.0) <= byte_offset
                + byte_len(line@),
{
    broadcast use vstd::string::group_string_axioms;

    let mut res: Vec<Line> = Vec::new();
    let mut curr: String = String::new();
    let mut curr_len: usize = 0;
    let mut off: usize = byte_offset;
    let mut word: String = String::new();
    let mut word_len: usize = 0;
    let ghost mut seen: Seq<char> = Seq::empty();
    proof {
        assert(res@.map_values(|l: Line| l@) =~= Seq::<(Seq<char>, nat)>::empty());
    }
    for c in it: line.chars()
        invariant
            it.seq() == line@,
            seen == line@.take(it.index()),
            byte_offset + byte_len(line@) <= usize::MAX,
            word@ == scan_words(seen).1,
            word_len == byte_len(word@),
            curr_len == byte_len(curr@),
            ({
                let st = wrap_fold(scan_words(seen).0, max_width as nat, byte_offset as nat);
                &&& res@.map_values(|l: Line| l@) == st.0
                &&& curr@ == st.1
                &&& off == st.2
            }),
            off + curr_len + (if curr_len > 0 { 1int } else { 0 }) + word_len <= byte_offset
                + byte_len(seen),
            forall|j: int|
                0 <= j < res@.len() ==> #[trigger] res@[j]@.1 + byte_len(res@[j]@.0) <= byte_offset
                    + byte_len(seen),
    {
        let ghost prev = seen;
        proof {
            seen = seen.push(c);
            assert(seen.drop_last() =~= prev);
            assert(line@.take(it.index() + 1) =~= seen);
            lemma_byte_len_push(prev, c);
            lemma_char_width_bounds(c);
            lemma_byte_len_prefix(line@, it.index() + 1);
        }
        if is_whitespace(c) {
            if word_len > 0 {
                proof {
                    lemma_byte_len_at_least_len(word@);
                    let words = scan_words(seen).0;
                    assert(words.drop_last() =~= scan_words(prev).0);
                }
                let w = word;
                place_word(&mut res, &mut curr, &mut curr_len, &mut off, w, word_len, max_width);
                word = String::new();
                word_len = 0;
            } else {
                proof {
                    lemma_byte_len_at_least_len(word@);
                }
            }
        } else {
            proof {
                lemma_byte_len_push(word@, c);
            }
            push_char(&mut word, c);
            word_len = word_len + char_utf8_width(c);
        }
    }
    proof {
        assert(line@.take(line@.len() as int) =~= line@);
    }
    if word_len > 0 {
        proof {
            lemma_byte_len_at_least_len(word@);
            assert(split_ws(seen).drop_last() =~= scan_words(seen).0);
        }
        let w = word;
        place_word(&mut res, &mut curr, &mut curr_len, &mut off, w, word_len, max_width);
    } else {
        proof {
            lemma_byte_len_at_least_len(word@);
        }
    }
    let ghost before = res@;
    res.push(Line::new(&curr, off));
    proof {
        assert(res@.map_values(|l: Line| l@) =~= before.map_values(|l: Line| l@).push(
            (curr@, off as nat),
        ));
        law_wrap_is_greedy(line@, max_width as nat, byte_offset as nat);
    }
    res
}

} // verus!
