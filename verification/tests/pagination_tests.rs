use calico::common::line::Line;
use calico::common::samples::{create_book, create_book_section, create_page};
use calico::layout::basic::BasicLayout;
use calico::layout::LayoutSection;
use calico::pagination::basic::BasicPagination;
use calico::pagination::{pages_offset_to_pg_no, PaginationEngine};
use calico::rendering::{layout_bytes, paginate_current_book};

fn create_line(content: &str, offset: usize) -> Line {
    Line::new(&content.to_string(), offset)
}

fn create_section(lines: Vec<Line>) -> LayoutSection {
    LayoutSection::new("section-1".to_string(), lines)
}

fn create_layout(sections: Vec<LayoutSection>) -> BasicLayout {
    BasicLayout::new(sections)
}

#[test]
fn returns_empty_pages_when_layout_has_no_sections() {
    let layout = create_layout(vec![]);
    let result = <BasicPagination as PaginationEngine<BasicLayout>>::create_pages(&layout, 2);
    assert!(result.is_empty());
}

#[test]
fn creates_single_page_when_lines_fit_in_page_size() {
    let layout = create_layout(vec![create_section(vec![
        create_line("hello", 0),
        create_line("world", 6),
    ])]);
    let result = <BasicPagination as PaginationEngine<BasicLayout>>::create_pages(&layout, 10);
    assert_eq!(result.len(), 1);
    let page = &result[0];
    assert_eq!(page.get_start_offset(), 0);
    assert_eq!(page.get_content().len(), 2);
}

#[test]
fn splits_lines_into_multiple_pages() {
    let layout = create_layout(vec![create_section(vec![
        create_line("a", 0),
        create_line("b", 2),
        create_line("c", 4),
        create_line("d", 6),
        create_line("e", 8),
    ])]);
    let result = <BasicPagination as PaginationEngine<BasicLayout>>::create_pages(&layout, 2);
    assert_eq!(result.len(), 3);
    assert_eq!(result[0].get_start_offset(), 0);
    assert_eq!(result[1].get_start_offset(), 4);
    assert_eq!(result[2].get_start_offset(), 8);
    assert_eq!(result[0].get_content().len(), 2);
    assert_eq!(result[1].get_content().len(), 2);
    assert_eq!(result[2].get_content().len(), 1);
}

#[test]
fn creates_pages_across_multiple_sections() {
    let layout = create_layout(vec![
        create_section(vec![create_line("a", 0), create_line("b", 2)]),
        create_section(vec![create_line("c", 10), create_line("d", 12)]),
    ]);
    let result = <BasicPagination as PaginationEngine<BasicLayout>>::create_pages(&layout, 1);
    assert_eq!(result.len(), 4);
    assert_eq!(result[0].get_start_offset(), 0);
    assert_eq!(result[1].get_start_offset(), 2);
    assert_eq!(result[2].get_start_offset(), 10);
    assert_eq!(result[3].get_start_offset(), 12);
}

#[test]
fn page_end_offset_is_end_of_last_line_in_bytes() {
    let layout = create_layout(vec![create_section(vec![
        create_line("ab", 3),
        create_line("çé", 6),
    ])]);
    let result = <BasicPagination as PaginationEngine<BasicLayout>>::create_pages(&layout, 5);
    assert_eq!(result.len(), 1);
    assert_eq!(result[0].get_start_offset(), 3);
    assert_eq!(result[0].get_end_offset(), 10);
}

#[test]
fn pages_never_straddle_sections() {
    let layout = create_layout(vec![
        create_section(vec![create_line("a", 0)]),
        create_section(vec![create_line("b", 2), create_line("c", 4), create_line("d", 6)]),
    ]);
    let result = <BasicPagination as PaginationEngine<BasicLayout>>::create_pages(&layout, 2);
    let sizes: Vec<usize> = result.iter().map(|p| p.get_content().len()).collect();
    assert_eq!(sizes, vec![1, 2, 1]);
}

#[test]
fn returns_empty_map_for_empty_pages() {
    let pages = vec![];
    let result = pages_offset_to_pg_no(&pages);
    assert!(result.is_empty());
}

#[test]
fn maps_single_page_offset_to_index() {
    let pages = vec![create_page(10)];
    let result = pages_offset_to_pg_no(&pages);
    assert_eq!(result.len(), 1);
    assert_eq!(result.get(&10), Some(&0));
}

#[test]
fn maps_multiple_page_offsets_to_correct_indices() {
    let pages = vec![create_page(0), create_page(120), create_page(240), create_page(360)];
    let result = pages_offset_to_pg_no(&pages);
    assert_eq!(result.len(), 4);
    assert_eq!(result.get(&0), Some(&0));
    assert_eq!(result.get(&120), Some(&1));
    assert_eq!(result.get(&240), Some(&2));
    assert_eq!(result.get(&360), Some(&3));
}

#[test]
fn duplicate_offsets_overwrite_previous_index() {
    let pages = vec![create_page(100), create_page(200), create_page(100)];
    let result = pages_offset_to_pg_no(&pages);
    assert_eq!(result.len(), 2);
    assert_eq!(result.get(&100), Some(&2));
    assert_eq!(result.get(&200), Some(&1));
}

#[test]
fn create_page_spans_one_hundred_bytes() {
    let page = create_page(7);
    assert_eq!(page.get_start_offset(), 7);
    assert_eq!(page.get_end_offset(), 107);
    assert!(page.get_content().is_empty());
}

#[test]
fn paginating_a_book_for_a_pane() {
    // A 15x6 pane leaves lines of 11 bytes and pages of 2 lines.
    let book = create_book(vec![create_book_section(
        "intro",
        "hello world from rust\nanother long line here",
    )]);
    assert_eq!(layout_bytes(&book), Some(45));
    let pages = paginate_current_book(&book, 15, 6);
    let starts: Vec<usize> = pages.iter().map(|p| p.get_start_offset()).collect();
    assert_eq!(starts, vec![0, 22, 40]);
    let lookup = pages_offset_to_pg_no(&pages);
    for (i, s) in starts.iter().enumerate() {
        assert_eq!(lookup.get(s), Some(&i));
    }
}

#[test]
fn pagination_keeps_every_line_in_order() {
    let layout = create_layout(vec![
        create_section(vec![create_line("a", 0), create_line("bb", 2), create_line("c", 5)]),
        create_section(vec![create_line("dd", 7)]),
    ]);
    let pages = <BasicPagination as PaginationEngine<BasicLayout>>::create_pages(&layout, 2);
    let lines: Vec<(String, usize)> = pages
        .iter()
        .flat_map(|p| p.get_content().iter())
        .map(|l| (l.get_line_content().to_string(), l.get_offset_of_first_char()))
        .collect();
    assert_eq!(
        lines,
        vec![
            ("a".to_string(), 0),
            ("bb".to_string(), 2),
            ("c".to_string(), 5),
            ("dd".to_string(), 7)
        ]
    );
    assert!(pages.iter().all(|p| !p.get_content().is_empty() && p.get_content().len() <= 2));
}
