use calico::common::samples::create_page;
use calico::common::settings::Bookmarks;
use calico::pagination::pages_offset_to_pg_no;
use calico::rendering::{
    get_current_page_no, handle_key, library_footer, open_reader, page_geometry,
    parse_bottom_title, parse_top_title, reader_footer, AppState, KeyInput, ReaderAction,
    ReaderState, TUI_PREFIX,
};

fn reading(offset: usize) -> ReaderState {
    ReaderState { mode: AppState::Reading, byte_offset: offset }
}

#[test]
fn titles_are_padded() {
    assert_eq!(parse_top_title("Library"), " Library ");
    assert_eq!(parse_bottom_title("Total books: 3"), format!(" Total books: 3 | {} ", TUI_PREFIX));
}

#[test]
fn footers() {
    assert_eq!(library_footer(0), "Total books: 0");
    assert_eq!(library_footer(1234), "Total books: 1234");
    assert_eq!(reader_footer(0, 10), "Page: 1 / 10 |");
}

#[test]
fn library_keys() {
    let st = ReaderState { mode: AppState::Library, byte_offset: 0 };
    let pages = vec![];
    assert_eq!(handle_key(st, KeyInput::Char('j'), 0, &pages), (st, ReaderAction::SelectNext));
    assert_eq!(handle_key(st, KeyInput::Up, 0, &pages), (st, ReaderAction::SelectPrevious));
    assert_eq!(handle_key(st, KeyInput::Enter, 0, &pages), (st, ReaderAction::OpenSelectedBook));
    assert_eq!(handle_key(st, KeyInput::Char('q'), 0, &pages), (st, ReaderAction::Shutdown));
    let (help, act) = handle_key(st, KeyInput::Char('?'), 0, &pages);
    assert_eq!(help.mode, AppState::HelpMenu);
    assert_eq!(act, ReaderAction::Nothing);
    assert_eq!(handle_key(help, KeyInput::Backspace, 0, &pages).0.mode, AppState::Library);
}

#[test]
fn turning_pages_forward_and_back() {
    let pages = vec![create_page(0), create_page(120), create_page(240)];
    let lookup = pages_offset_to_pg_no(&pages);

    let st = reading(0);
    let page = get_current_page_no(&lookup, st.byte_offset);
    assert_eq!(page, 0);
    let (st, act) = handle_key(st, KeyInput::Right, page, &pages);
    assert_eq!((st.byte_offset, act), (120, ReaderAction::SaveBookmark));
    let page = get_current_page_no(&lookup, st.byte_offset);
    assert_eq!(page, 1);
    let (st2, _) = handle_key(st, KeyInput::Char('l'), page, &pages);
    assert_eq!(st2.byte_offset, 240);
    let (st2b, act) = handle_key(st2, KeyInput::Right, 2, &pages);
    assert_eq!((st2b, act), (st2, ReaderAction::Nothing));
    let (back, _) = handle_key(st, KeyInput::Left, page, &pages);
    assert_eq!(back.byte_offset, 0);
    let (first, act) = handle_key(back, KeyInput::Char('h'), 0, &pages);
    assert_eq!((first, act), (back, ReaderAction::Nothing));
    let (lib, _) = handle_key(st, KeyInput::Backspace, page, &pages);
    assert_eq!(lib, ReaderState { mode: AppState::Library, byte_offset: 0 });
}

#[test]
fn unknown_offset_is_page_zero() {
    let pages = vec![create_page(0), create_page(120)];
    let lookup = pages_offset_to_pg_no(&pages);
    assert_eq!(get_current_page_no(&lookup, 77), 0);
}

#[test]
fn opening_a_book_starts_at_its_bookmark() {
    let mut b = Bookmarks::new();
    assert_eq!(open_reader(&b, "book"), reading(0));
    b.set_bookmarks("book", 360);
    assert_eq!(open_reader(&b, "book"), reading(360));
}

#[test]
fn pane_geometry() {
    assert_eq!(page_geometry(80, 24), (76, 20));
}

#[test]
fn back_then_forward_returns_to_the_page() {
    let pages = vec![create_page(0), create_page(100), create_page(200)];
    let lookup = pages_offset_to_pg_no(&pages);
    let start = reading(100);
    let (st1, a1) = handle_key(start, KeyInput::Left, get_current_page_no(&lookup, 100), &pages);
    assert_eq!(st1.byte_offset, 0);
    assert_eq!(a1, ReaderAction::SaveBookmark);
    let (st2, a2) = handle_key(st1, KeyInput::Right, get_current_page_no(&lookup, st1.byte_offset), &pages);
    assert_eq!(st2, start);
    assert_eq!(a2, ReaderAction::SaveBookmark);
}
