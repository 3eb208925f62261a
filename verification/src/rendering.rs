//! The decisions of the terminal reader: what a key does in each screen,
//! which page a byte offset is on, the page geometry, and the titles shown
//! around the panes.

use vstd::prelude::*;
use vstd::string::StringExecFns;
use std::collections::HashMap;
use crate::common::book::Book;
use crate::common::settings::Bookmarks;
use crate::layout::basic::{basic_layout, BasicLayout};
use crate::layout::{layoutize, sections_bytes};
use crate::pagination::basic::{basic_pages, BasicPagination};
use crate::pagination::laws::{law_offset_lookup_inverts, strictly_increasing};
use crate::pagination::{offset_lookup, paginate, Page, PageView};
use crate::text::{decimal, push_spaces, spaces, usize_to_decimal};

verus! {

/// Blank columns on each side of a title, and inside each pane border.
pub const TUI_PADDING: usize = 1;

/// The hint shown after every bottom title.
pub const TUI_PREFIX: &'static str = "Press ? for help";

/// A top title: the text with [`TUI_PADDING`] spaces on each side.
pub fn parse_top_title(title_str: &str) -> (s: String)
    ensures
        s@ == spaces(TUI_PADDING as nat) + title_str@ + spaces(TUI_PADDING as nat),
{
    let mut s = String::new();
    push_spaces(&mut s, TUI_PADDING);
    s.append(title_str);
    push_spaces(&mut s, TUI_PADDING);
    s
}

/// A bottom title: the text, then ` | ` and [`TUI_PREFIX`], padded on
/// each side.
pub fn parse_bottom_title(title_str: &str) -> (s: String)
    ensures
        s@ == spaces(TUI_PADDING as nat) + title_str@ + " | "@ + TUI_PREFIX@ + spaces(
            TUI_PADDING as nat,
        ),
{
    let mut s = String::new();
    push_spaces(&mut s, TUI_PADDING);
    s.append(title_str);
    s.append(" | ");
    s.append(TUI_PREFIX);
    push_spaces(&mut s, TUI_PADDING);
    s
}

/// The footer of the library list: `Total books: n`.
pub fn library_footer(total_books: usize) -> (s: String)
    ensures
        s@ == "Total books: "@ + decimal(total_books as nat),
{
    let mut s = String::from_str("Total books: ");
    s.append(usize_to_decimal(total_books).as_str());
    s
}

/// The footer of the reader: `Page: p / n |`, counting pages from one.
pub fn reader_footer(page_no: usize, total_pages: usize) -> (s: String)
    requires
        page_no < total_pages,
    ensures
        s@ == "Page: "@ + decimal(page_no as nat + 1) + " / "@ + decimal(total_pages as nat)
            + " |"@,
{
    let mut s = String::from_str("Page: ");
    s.append(usize_to_decimal(page_no + 1).as_str());
    s.append(" / ");
    s.append(usize_to_decimal(total_pages).as_str());
    s.append(" |");
    s
}

/// The screens of the reader.
#[derive(Debug, Clone, Copy, PartialEq, Eq, Structural)]
pub enum AppState {
    Library,
    Reading,
    HelpMenu,
}

/// A key press, as the reader tells keys apart.
#[derive(Debug, Clone, Copy, PartialEq, Eq, Structural)]
pub enum KeyInput {
    Up,
    Down,
    Left,
    Right,
    Enter,
    Backspace,
    Char(char),
    Other,
}

/// What the reader does besides changing screen or position.
#[derive(Debug, Clone, Copy, PartialEq, Eq, Structural)]
pub enum ReaderAction {
    Nothing,
    /// Move the library selection down.
    SelectNext,
    /// Move the library selection up.
    SelectPrevious,
    /// Paginate the selected book and open it at its bookmark.
    OpenSelectedBook,
    /// Record the new position as the book's bookmark.
    SaveBookmark,
    /// Restore the terminal and quit.
    Shutdown,
}

/// The screen shown and the byte offset read up to.
#[derive(Debug, Clone, Copy, PartialEq, Eq, Structural)]
pub struct ReaderState {
    pub mode: AppState,
    pub byte_offset: usize,
}

/// What a key does. In the library: down or `j` and up or `k` move the
/// selection, enter opens the book, `q` quits, `?` shows help. While
/// reading page `page_no` of pages starting at `starts`: right or `l` turns
/// to the next page and left or `h` to the previous one, if there is one,
/// saving the bookmark; backspace goes back to the library at offset 0;
/// `q` quits. In help: backspace goes back to the library, `q` quits. Any
/// other key does nothing.
pub open spec fn spec_handle_key(st: ReaderState, key: KeyInput, page_no: nat, starts: Seq<nat>) -> (
    ReaderState,
    ReaderAction,
) {
    match st.mode {
        AppState::Library => if key == KeyInput::Down || key == KeyInput::Char('j') {
            (st, ReaderAction::SelectNext)
        } else if key == KeyInput::Up || key == KeyInput::Char('k') {
            (st, ReaderAction::SelectPrevious)
        } else if key == KeyInput::Enter {
            (st, ReaderAction::OpenSelectedBook)
        } else if key == KeyInput::Char('q') {
            (st, ReaderAction::Shutdown)
        } else if key == KeyInput::Char('?') {
            (ReaderState { mode: AppState::HelpMenu, ..st }, ReaderAction::Nothing)
        } else {
            (st, ReaderAction::Nothing)
        },
        AppState::Reading => if key == KeyInput::Right || key == KeyInput::Char('l') {
            if page_no + 1 < starts.len() {
                (
                    ReaderState { byte_offset: starts[page_no + 1 as int] as usize, ..st },
                    ReaderAction::SaveBookmark,
                )
            } else {
                (st, ReaderAction::Nothing)
            }
        } else if key == KeyInput::Left || key == KeyInput::Char('h') {
            if page_no > 0 {
                (
                    ReaderState { byte_offset: starts[page_no - 1] as usize, ..st },
                    ReaderAction::SaveBookmark,
                )
            } else {
                (st, ReaderAction::Nothing)
            }
        } else if key == KeyInput::Backspace {
            (ReaderState { mode: AppState::Library, byte_offset: 0 }, ReaderAction::Nothing)
        } else if key == KeyInput::Char('q') {
            (st, ReaderAction::Shutdown)
        } else {
            (st, ReaderAction::Nothing)
        },
        AppState::HelpMenu => if key == KeyInput::Backspace {
            (ReaderState { mode: AppState::Library, ..st }, ReaderAction::Nothing)
        } else if key == KeyInput::Char('q') {
            (st, ReaderAction::Shutdown)
        } else {
            (st, ReaderAction::Nothing)
        },
    }
}

pub open spec fn pages_view(pages: Seq<Page>) -> Seq<PageView> {
    pages.map_values(|p: Page| p@)
}

pub open spec fn starts_of(pages: Seq<Page>) -> Seq<nat> {
    pages.map_values(|p: Page| p@.1)
}

/// Turning back from page `page_no` reads the page before it, which must
/// then exist.
pub open spec fn key_in_range(st: ReaderState, key: KeyInput, page_no: nat, n_pages: nat) -> bool {
    st.mode == AppState::Reading && (key == KeyInput::Left || key == KeyInput::Char('h'))
        && page_no > 0 ==> page_no <= n_pages
}

/// What `key` does in state `st` (see [`spec_handle_key`]).
pub fn handle_key(st: ReaderState, key: KeyInput, page_no: usize, pages: &Vec<Page>) -> (r: (
    ReaderState,
    ReaderAction,
))
    requires
        key_in_range(st, key, page_no as nat, pages@.len()),
    ensures
        r == spec_handle_key(st, key, page_no as nat, starts_of(pages@)),
{
    match st.mode {
        AppState::Library => {
            if key == KeyInput::Down || key == KeyInput::Char('j') {
                (st, ReaderAction::SelectNext)
            } else if key == KeyInput::Up || key == KeyInput::Char('k') {
                (st, ReaderAction::SelectPrevious)
            } else if key == KeyInput::Enter {
                (st, ReaderAction::OpenSelectedBook)
            } else if key == KeyInput::Char('q') {
                (st, ReaderAction::Shutdown)
            } else if key == KeyInput::Char('?') {
                (ReaderState { mode: AppState::HelpMenu, ..st }, ReaderAction::Nothing)
            } else {
                (st, ReaderAction::Nothing)
            }
        },
        AppState::Reading => {
            if key == KeyInput::Right || key == KeyInput::Char('l') {
                if page_no < pages.len() && pages.len() - page_no > 1 {
                    let next = pages[page_no + 1].get_start_offset();
                    (ReaderState { byte_offset: next, ..st }, ReaderAction::SaveBookmark)
                } else {
                    (st, ReaderAction::Nothing)
                }
            } else if key == KeyInput::Left || key == KeyInput::Char('h') {
                if page_no > 0 {
                    let prev = pages[page_no - 1].get_start_offset();
                    (ReaderState { byte_offset: prev, ..st }, ReaderAction::SaveBookmark)
                } else {
                    (st, ReaderAction::Nothing)
                }
            } else if key == KeyInput::Backspace {
                (ReaderState { mode: AppState::Library, byte_offset: 0 }, ReaderAction::Nothing)
            } else if key == KeyInput::Char('q') {
                (st, ReaderAction::Shutdown)
            } else {
                (st, ReaderAction::Nothing)
            }
        },
        AppState::HelpMenu => {
            if key == KeyInput::Backspace {
                (ReaderState { mode: AppState::Library, ..st }, ReaderAction::Nothing)
            } else if key == KeyInput::Char('q') {
                (st, ReaderAction::Shutdown)
            } else {
                (st, ReaderAction::Nothing)
            }
        },
    }
}

/// In the library, down and `j` move the selection to the next book, up
/// and `k` to the previous one, enter opens the selected book and `q`
/// quits; no key there changes the screen's position in a book.
pub proof fn law_library_keys(st: ReaderState, key: KeyInput, page_no: nat, starts: Seq<nat>)
    requires
        st.mode == AppState::Library,
    ensures
        spec_handle_key(st, KeyInput::Down, page_no, starts) == (st, ReaderAction::SelectNext),
        spec_handle_key(st, KeyInput::Char('j'), page_no, starts) == (st, ReaderAction::SelectNext),
        spec_handle_key(st, KeyInput::Up, page_no, starts) == (st, ReaderAction::SelectPrevious),
        spec_handle_key(st, KeyInput::Char('k'), page_no, starts) == (
            st,
            ReaderAction::SelectPrevious,
        ),
        spec_handle_key(st, KeyInput::Enter, page_no, starts) == (
            st,
            ReaderAction::OpenSelectedBook,
        ),
        spec_handle_key(st, KeyInput::Char('q'), page_no, starts) == (st, ReaderAction::Shutdown),
        spec_handle_key(st, key, page_no, starts).0.byte_offset == st.byte_offset,
{
}

/// Changing screens: `?` in the library opens the help; backspace in the
/// help returns to the library, and backspace while reading returns to it
/// at offset 0; `q` quits from every screen. While reading page `page_no`
/// of pages starting at `starts`, right or `l` moves to the next page's
/// start and left or `h` to the previous page's start, asking for the
/// bookmark to be saved, and both do nothing past the first or last page.
pub proof fn law_screen_keys(st: ReaderState, page_no: nat, starts: Seq<nat>)
    ensures
        st.mode == AppState::Library ==> spec_handle_key(st, KeyInput::Char('?'), page_no, starts)
            == (ReaderState { mode: AppState::HelpMenu, ..st }, ReaderAction::Nothing),
        st.mode == AppState::HelpMenu ==> spec_handle_key(st, KeyInput::Backspace, page_no, starts)
            == (ReaderState { mode: AppState::Library, ..st }, ReaderAction::Nothing),
        st.mode == AppState::Reading ==> spec_handle_key(st, KeyInput::Backspace, page_no, starts)
            == (ReaderState { mode: AppState::Library, byte_offset: 0 }, ReaderAction::Nothing),
        spec_handle_key(st, KeyInput::Char('q'), page_no, starts) == (st, ReaderAction::Shutdown),
        st.mode == AppState::Reading && page_no + 1 < starts.len() ==> {
            &&& spec_handle_key(st, KeyInput::Right, page_no, starts) == (
                ReaderState { mode: AppState::Reading, byte_offset: starts[(page_no + 1) as int] as usize },
                ReaderAction::SaveBookmark,
            )
            &&& spec_handle_key(st, KeyInput::Char('l'), page_no, starts) == spec_handle_key(
                st,
                KeyInput::Right,
                page_no,
                starts,
            )
        },
        st.mode == AppState::Reading && page_no > 0 ==> {
            &&& spec_handle_key(st, KeyInput::Left, page_no, starts) == (
                ReaderState { mode: AppState::Reading, byte_offset: starts[page_no - 1] as usize },
                ReaderAction::SaveBookmark,
            )
            &&& spec_handle_key(st, KeyInput::Char('h'), page_no, starts) == spec_handle_key(
                st,
                KeyInput::Left,
                page_no,
                starts,
            )
        },
        st.mode == AppState::Reading && page_no + 1 >= starts.len() ==> spec_handle_key(
            st,
            KeyInput::Right,
            page_no,
            starts,
        ) == (st, ReaderAction::Nothing),
        st.mode == AppState::Reading && page_no == 0 ==> spec_handle_key(
            st,
            KeyInput::Left,
            page_no,
            starts,
        ) == (st, ReaderAction::Nothing),
{
}

/// Reading a book whose page starts strictly increase, with the page found
/// from the offset by [`offset_lookup`]: turning forward from page `k` and
/// then back returns to page `k`'s start, and each turn asks for the
/// bookmark to be saved.
pub proof fn law_turn_forward_then_back(st: ReaderState, starts: Seq<nat>, k: int)
    requires
        st.mode == AppState::Reading,
        strictly_increasing(starts),
        forall|i: int| 0 <= i < starts.len() ==> #[trigger] starts[i] <= usize::MAX,
        0 <= k,
        k + 1 < starts.len(),
        st.byte_offset == starts[k],
    ensures
        ({
            let lookup = offset_lookup(starts);
            let (st1, a1) = spec_handle_key(st, KeyInput::Right, lookup[st.byte_offset] as nat, starts);
            let (st2, a2) = spec_handle_key(st1, KeyInput::Left, lookup[st1.byte_offset] as nat, starts);
            &&& st1.mode == AppState::Reading
            &&& st1.byte_offset == starts[k + 1]
            &&& a1 == ReaderAction::SaveBookmark
            &&& a2 == ReaderAction::SaveBookmark
            &&& st2 == st
        }),
{
    law_offset_lookup_inverts(starts);
    assert(starts[k] as usize == st.byte_offset);
    assert(offset_lookup(starts)[starts[k] as usize] == k);
    assert(offset_lookup(starts)[starts[k + 1] as usize] == k + 1);
}

/// Reading as above: turning back from page `k` and then forward returns
/// to page `k`'s start.
pub proof fn law_turn_back_then_forward(st: ReaderState, starts: Seq<nat>, k: int)
    requires
        st.mode == AppState::Reading,
        strictly_increasing(starts),
        forall|i: int| 0 <= i < starts.len() ==> #[trigger] starts[i] <= usize::MAX,
        0 < k < starts.len(),
        st.byte_offset == starts[k],
    ensures
        ({
            let lookup = offset_lookup(starts);
            let (st1, a1) = spec_handle_key(st, KeyInput::Left, lookup[st.byte_offset] as nat, starts);
            let (st2, a2) = spec_handle_key(st1, KeyInput::Right, lookup[st1.byte_offset] as nat, starts);
            &&& st1.mode == AppState::Reading
            &&& st1.byte_offset == starts[k - 1]
            &&& a1 == ReaderAction::SaveBookmark
            &&& a2 == ReaderAction::SaveBookmark
            &&& st2 == st
        }),
{
    law_offset_lookup_inverts(starts);
    assert(starts[k] as usize == st.byte_offset);
    assert(offset_lookup(starts)[starts[k] as usize] == k);
    assert(offset_lookup(starts)[starts[k - 1] as usize] == k - 1);
}

/// The page that `byte_offset` starts, by the lookup of
/// [`crate::pagination::pages_offset_to_pg_no`]; page 0 when none does.
pub fn get_current_page_no(lookup: &HashMap<usize, usize>, byte_offset: usize) -> (n: usize)
    ensures
        n == if lookup@.contains_key(byte_offset) {
            lookup@[byte_offset]
        } else {
            0
        },
{
    broadcast use vstd::std_specs::hash::group_hash_axioms;

    match lookup.get(&byte_offset) {
        Some(n) => *n,
        None => 0,
    }
}

/// Where book `book_id` opens: at its bookmark's offset, or at 0.
pub open spec fn start_offset(bookmarks: Map<Seq<char>, (nat, nat)>, book_id: Seq<char>) -> nat {
    if bookmarks.contains_key(book_id) {
        bookmarks[book_id].0
    } else {
        0
    }
}

/// A book opens where its bookmark was last saved, whatever the time
/// recorded with it (see [`Bookmarks::set_bookmarks`] and [`open_reader`]).
pub proof fn law_reopen_at_saved_offset(
    bookmarks: Map<Seq<char>, (nat, nat)>,
    book_id: Seq<char>,
    offset: nat,
    last_read: nat,
)
    ensures
        start_offset(bookmarks.insert(book_id, (offset, last_read)), book_id) == offset,
{
}

/// Saving one book's bookmark does not move where another book opens.
pub proof fn law_other_books_unmoved(
    bookmarks: Map<Seq<char>, (nat, nat)>,
    book_id: Seq<char>,
    other: Seq<char>,
    offset: nat,
    last_read: nat,
)
    requires
        other != book_id,
    ensures
        start_offset(bookmarks.insert(book_id, (offset, last_read)), other) == start_offset(
            bookmarks,
            other,
        ),
{
}

/// The state on opening a book: reading, at its bookmark or at offset 0.
pub fn open_reader(bookmarks: &Bookmarks, book_id: &str) -> (st: ReaderState)
    ensures
        st.mode == AppState::Reading,
        st.byte_offset == start_offset(bookmarks@, book_id@),
{
    let offset = match bookmarks.get(book_id) {
        Some(b) => b.get_offset(),
        None => 0,
    };
    ReaderState { mode: AppState::Reading, byte_offset: offset }
}

/// The line width and page height inside a pane of `width` by `height`
/// cells: the border and the padding on each side are taken off.
pub fn page_geometry(width: u16, height: u16) -> (r: (usize, usize))
    requires
        width >= 2 + 2 * TUI_PADDING,
        height >= 2 + 2 * TUI_PADDING,
    ensures
        r.0 == width - 2 - 2 * TUI_PADDING,
        r.1 == height - 2 - 2 * TUI_PADDING,
{
    let w = (width - 2) as usize;
    let h = (height - 2) as usize;
    (w - 2 * TUI_PADDING, h - 2 * TUI_PADDING)
}

/// The bytes that laying `book` out walks over, or `None` when that is
/// more than a `usize` holds.
pub fn layout_bytes(book: &Book) -> (r: Option<usize>)
    ensures
        match r {
            Some(n) => n == sections_bytes(book@.sections),
            None => sections_bytes(book@.sections) > usize::MAX,
        },
{
    let sections = book.get_all_sections();
    let ghost secs = book@.sections;
    let mut total: usize = 0;
    for i in 0..sections.len()
        invariant
            secs == sections@.map_values(|s: crate::common::book::BookSection| s@),
            secs == book@.sections,
            total == sections_bytes(secs.take(i as int)),
    {
        proof {
            assert(secs.take(i + 1).drop_last() =~= secs.take(i as int));
            assert(secs.take(i + 1).last() == sections@[i as int]@);
            assert(sections_bytes(secs.take(i + 1)) == sections_bytes(secs.take(i as int))
                + crate::text::byte_len(sections@[i as int]@.1) + 1);
        }
        let n = match crate::text::checked_byte_len(sections[i].get_content()) {
            Some(n) => n,
            None => {
                proof {
                    crate::layout::basic::lemma_sections_bytes_prefix(secs, i + 1);
                }
                return None;
            },
        };
        if total > usize::MAX - n || usize::MAX - n - total < 1 {
            proof {
                crate::layout::basic::lemma_sections_bytes_prefix(secs, i + 1);
            }
            return None;
        }
        total = total + n + 1;
    }
    proof {
        assert(secs.take(sections.len() as int) =~= secs);
    }
    Some(total)
}

/// The pages of `book` in a pane of `width` by `height` cells: the basic
/// layout at the pane's line width, cut into pages of its height.
pub fn paginate_current_book(book: &Book, width: u16, height: u16) -> (pages: Vec<Page>)
    requires
        width >= 2 + 2 * TUI_PADDING,
        height > 2 + 2 * TUI_PADDING,
        sections_bytes(book@.sections) <= usize::MAX,
    ensures
        pages_view(pages@) == basic_pages(
            basic_layout(book@.sections, (width - 2 - 2 * TUI_PADDING) as nat, 0),
            (height - 2 - 2 * TUI_PADDING) as nat,
        ),
{
    let (max_width, page_size) = page_geometry(width, height);
    let layout = layoutize::<BasicLayout>(book, max_width);
    paginate::<BasicLayout, BasicPagination>(&layout, page_size)
}

} // verus!
