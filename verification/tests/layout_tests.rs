use calico::common::samples::{create_book, create_book_section};
use calico::layout::basic::BasicLayout;
use calico::layout::wrap::wrap_words_to_next_line;
use calico::layout::{layoutize, LayoutEngine, LayoutOutput};

#[test]
fn creates_empty_layout_when_book_has_no_sections() {
    let book = create_book(vec![]);

    let layout = BasicLayout::create_layout(10, &book);

    assert!(layout.get_all_sections().is_empty());
}

#[test]
fn creates_single_section_layout() {
    let book = create_book(vec![create_book_section("intro", "hello world")]);

    let layout = BasicLayout::create_layout(20, &book);

    let sections = layout.get_all_sections();

    assert_eq!(sections.len(), 1);

    let lines = sections[0].get_lines();

    assert_eq!(lines.len(), 1);
    assert_eq!(lines[0].get_line_content(), "hello world");
    assert_eq!(lines[0].get_offset_of_first_char(), 0);
}

#[test]
fn wraps_long_lines_based_on_max_width() {
    let book = create_book(vec![create_book_section("intro", "hello world from rust")]);

    let layout = BasicLayout::create_layout(11, &book);

    let sections = layout.get_all_sections();

    let lines = sections[0].get_lines();

    assert_eq!(lines.len(), 2);

    assert_eq!(lines[0].get_line_content(), "hello world");
    assert_eq!(lines[1].get_line_content(), "from rust");

    assert_eq!(lines[0].get_offset_of_first_char(), 0);
    assert_eq!(lines[1].get_offset_of_first_char(), 12);
}

#[test]
fn preserves_offsets_across_newlines() {
    let book = create_book(vec![create_book_section("intro", "hello\nworld")]);

    let layout = BasicLayout::create_layout(20, &book);

    let sections = layout.get_all_sections();

    let lines = sections[0].get_lines();

    assert_eq!(lines.len(), 2);

    assert_eq!(lines[0].get_line_content(), "hello");
    assert_eq!(lines[0].get_offset_of_first_char(), 0);

    assert_eq!(lines[1].get_line_content(), "world");
    assert_eq!(lines[1].get_offset_of_first_char(), 6);
}

#[test]
fn preserves_offsets_across_multiple_sections() {
    let book = create_book(vec![
        create_book_section("s1", "hello"),
        create_book_section("s2", "world"),
    ]);

    let layout = BasicLayout::create_layout(20, &book);

    let sections = layout.get_all_sections();

    assert_eq!(sections.len(), 2);

    let first_lines = sections[0].get_lines();
    let second_lines = sections[1].get_lines();

    assert_eq!(first_lines[0].get_offset_of_first_char(), 0);
    assert_eq!(second_lines[0].get_offset_of_first_char(), 6);
}

#[test]
fn handles_multiple_wrapped_lines_and_newlines() {
    let book = create_book(vec![create_book_section(
        "intro",
        "hello world from rust\nanother long line here",
    )]);

    let layout = BasicLayout::create_layout(11, &book);

    let sections = layout.get_all_sections();

    let lines = sections[0].get_lines();

    assert_eq!(lines.len(), 5);

    assert_eq!(lines[0].get_line_content(), "hello world");
    assert_eq!(lines[1].get_line_content(), "from rust");
    assert_eq!(lines[2].get_line_content(), "another");
    assert_eq!(lines[3].get_line_content(), "long line");
}

#[test]
fn returns_single_line_when_text_fits_within_max_width() {
    let result = wrap_words_to_next_line("hello world", 20, 0);

    assert_eq!(result.len(), 1);

    assert_eq!(result[0].get_line_content(), "hello world");
    assert_eq!(result[0].get_offset_of_first_char(), 0);
}

#[test]
fn wraps_text_into_multiple_lines() {
    let result = wrap_words_to_next_line("hello world from rust", 11, 0);

    assert_eq!(result.len(), 2);

    assert_eq!(result[0].get_line_content(), "hello world");
    assert_eq!(result[0].get_offset_of_first_char(), 0);

    assert_eq!(result[1].get_line_content(), "from rust");
    assert_eq!(result[1].get_offset_of_first_char(), 12);
}

#[test]
fn preserves_correct_offsets_after_wrapping() {
    let result = wrap_words_to_next_line("abc def ghi", 7, 10);

    assert_eq!(result.len(), 2);

    assert_eq!(result[0].get_line_content(), "abc def");
    assert_eq!(result[0].get_offset_of_first_char(), 10);

    assert_eq!(result[1].get_line_content(), "ghi");
    assert_eq!(result[1].get_offset_of_first_char(), 18);
}

#[test]
fn handles_single_word_longer_than_max_width() {
    let result = wrap_words_to_next_line("superlongword", 5, 0);

    assert_eq!(result.len(), 1);

    assert_eq!(result[0].get_line_content(), "superlongword");
    assert_eq!(result[0].get_offset_of_first_char(), 0);
}

#[test]
fn handles_empty_input() {
    let result = wrap_words_to_next_line("", 10, 0);

    assert_eq!(result.len(), 1);

    assert_eq!(result[0].get_line_content(), "");
    assert_eq!(result[0].get_offset_of_first_char(), 0);
}

#[test]
fn ignores_extra_whitespace_between_words() {
    let result = wrap_words_to_next_line("hello    world", 20, 0);

    assert_eq!(result.len(), 1);

    assert_eq!(result[0].get_line_content(), "hello world");
}

#[test]
fn wraps_every_word_when_max_width_is_small() {
    let result = wrap_words_to_next_line("a bb ccc", 1, 0);

    assert_eq!(result.len(), 3);

    assert_eq!(result[0].get_line_content(), "a");
    assert_eq!(result[1].get_line_content(), "bb");
    assert_eq!(result[2].get_line_content(), "ccc");
}

#[test]
fn wrap_counts_offsets_in_bytes_for_multibyte_text() {
    // "héllo" is 6 bytes long, so the next line starts at byte 7.
    let result = wrap_words_to_next_line("héllo wörld", 6, 0);

    assert_eq!(result.len(), 2);
    assert_eq!(result[0].get_line_content(), "héllo");
    assert_eq!(result[0].get_offset_of_first_char(), 0);
    assert_eq!(result[1].get_line_content(), "wörld");
    assert_eq!(result[1].get_offset_of_first_char(), 7);
}

#[test]
fn wrap_treats_unicode_whitespace_as_separator() {
    let result = wrap_words_to_next_line("one\u{3000}two\ttwo", 100, 0);

    assert_eq!(result.len(), 1);
    assert_eq!(result[0].get_line_content(), "one two two");
}

#[test]
fn wrap_whitespace_only_line_gives_one_empty_line() {
    let result = wrap_words_to_next_line("   \t ", 10, 42);

    assert_eq!(result.len(), 1);
    assert_eq!(result[0].get_line_content(), "");
    assert_eq!(result[0].get_offset_of_first_char(), 42);
}

#[test]
fn layout_keeps_empty_pieces_between_newlines() {
    let book = create_book(vec![create_book_section("s", "a\n\nb\n")]);

    let layout = layoutize::<BasicLayout>(&book, 10);
    let lines = layout.get_all_sections()[0].get_lines();

    let contents: Vec<&str> = lines.iter().map(|l| l.get_line_content()).collect();
    let offsets: Vec<usize> = lines.iter().map(|l| l.get_offset_of_first_char()).collect();
    assert_eq!(contents, vec!["a", "", "b", ""]);
    assert_eq!(offsets, vec![0, 2, 3, 5]);
}

#[test]
fn layout_section_starts_after_previous_section_bytes() {
    // Each section's text is followed by one byte, whatever the text holds.
    let book = create_book(vec![
        create_book_section("s1", "ab\ncd"),
        create_book_section("s2", "x"),
        create_book_section("s3", "y"),
    ]);

    let layout = BasicLayout::create_layout(20, &book);
    let sections = layout.get_all_sections();

    assert_eq!(sections[1].get_lines()[0].get_offset_of_first_char(), 6);
    assert_eq!(sections[2].get_lines()[0].get_offset_of_first_char(), 8);
}
