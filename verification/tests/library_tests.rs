use calico::common::book::{Book, BookMetadata};
use calico::common::filetypes::BookFileTypes;
use calico::common::library::{file_extension, merge_book_sources};
use calico::common::samples::create_book;
use calico::common::settings::{BookBookmark, BookMap, Bookmarks, Settings, SourceSettings};
use calico::onboarding::{
    bookmarks_pipeline, create_books_directory, default_settings, keeps_existing_sources, pipeline, StepKind,
};

fn files(list: &[(&str, &str)]) -> Vec<(String, String)> {
    list.iter().map(|(p, n)| (p.to_string(), n.to_string())).collect()
}

fn type_of(books: &[(String, BookFileTypes)], path: &str) -> Option<BookFileTypes> {
    books.iter().find(|(p, _)| p == path).map(|(_, t)| *t)
}

#[test]
fn merge_adds_scanned_files_by_extension() {
    let books = merge_book_sources(
        &vec![],
        &files(&[
            ("/s/a.epub", "a.epub"),
            ("/s/b.txt", "b.txt"),
            ("/s/noext", "noext"),
            ("/s/.hidden", ".hidden"),
            ("/s/trailing.", "trailing."),
        ]),
    );
    assert_eq!(books.len(), 2);
    assert_eq!(type_of(&books, "/s/a.epub"), Some(BookFileTypes::EpubFileType));
    assert_eq!(type_of(&books, "/s/b.txt"), Some(BookFileTypes::UnknownFileType));
}

#[test]
fn merge_keeps_known_books_and_skips_them_when_scanned() {
    let known = vec![
        BookMap::new(1, "a", "/x/1", "epub", "/docs/a.epub"),
        BookMap::new(2, "b", "/x/2", "pdf", "/docs/b.epub"),
        BookMap::new(3, "b", "/x/3", "epub", "/docs/b.epub"),
    ];
    let books = merge_book_sources(&known, &files(&[("/docs/a.epub", "a.epub"), ("/s/c.epub", "c.epub")]));
    assert_eq!(books.len(), 3);
    assert_eq!(type_of(&books, "/docs/a.epub"), Some(BookFileTypes::EpubFileType));
    assert_eq!(type_of(&books, "/docs/b.epub"), Some(BookFileTypes::EpubFileType));
    assert_eq!(type_of(&books, "/s/c.epub"), Some(BookFileTypes::EpubFileType));
}

#[test]
fn extension_follows_path_rules() {
    assert_eq!(file_extension("a.tar.gz"), Some("gz".to_string()));
    assert_eq!(file_extension(".bashrc"), None);
    assert_eq!(file_extension(".a.b"), Some("b".to_string()));
    assert_eq!(file_extension("plain"), None);
    assert_eq!(file_extension("x."), Some("".to_string()));
}

#[test]
fn bookmark_read_after_write() {
    let mut b = Bookmarks::new();
    assert!(b.get("id").is_none());
    b.set_bookmarks("id", 120);
    assert_eq!(b.get("id").unwrap().get_offset(), 120);
    b.set_bookmarks("other", 5);
    b.set_bookmarks("id", 240);
    assert_eq!(b.get("id").unwrap().get_offset(), 240);
    assert_eq!(b.get("other").unwrap().get_offset(), 5);
    assert_eq!(b.get_bookmarks().len(), 2);
}

#[test]
fn bookmarks_from_entries_first_entry_counts() {
    let b = Bookmarks::from_entries(vec![
        ("k".to_string(), BookBookmark::new(1, 10)),
        ("k".to_string(), BookBookmark::new(2, 20)),
    ]);
    assert_eq!(b.get("k").unwrap().get_offset(), 1);
    assert_eq!(b.get("k").unwrap().get_last_read(), 10);
}

#[test]
fn default_settings_point_at_documents() {
    let s = default_settings("/home/me");
    assert_eq!(s.get_get_source_paths(), &vec!["/home/me/Documents/".to_string()]);
}

#[test]
fn existing_sources_are_kept_only_when_present() {
    let with = Settings::new(SourceSettings::new(vec!["/x".to_string()]));
    let without = Settings::new(SourceSettings::new(vec![]));
    assert!(keeps_existing_sources("[sources]", Some(&with)));
    assert!(!keeps_existing_sources("[sources]", Some(&without)));
    assert!(!keeps_existing_sources("  \n", Some(&with)));
    assert!(!keeps_existing_sources("garbage", None));
}

#[test]
fn book_titles_and_ids_from_metadata() {
    let book = create_book(vec![]);
    assert_eq!(book.get_title(), "Test Book by Test Author");
    assert_eq!(book.get_id(), "Test Book|Test Author|ISBN");
    assert_eq!(
        book.get_metadata(),
        "Test Book by Test Author\n\n -\n\n Series: #-1 of N/A \n\n Subjects: N/A\n\n Rights: Unknown Publisher | Unknown Rights | Unknown ISBN"
    );
}

#[test]
fn full_metadata_text() {
    let m = BookMetadata::new(
        "Title".to_string(),
        None,
        Some("Desc".to_string()),
        Some("Saga".to_string()),
        Some(12),
        Some(vec!["a".to_string(), "b".to_string(), "c".to_string()]),
        Some("978".to_string()),
        Some("Pub".to_string()),
        Some("CC".to_string()),
    );
    let book = Book::new(m, vec![]);
    assert_eq!(book.get_title(), "Title by Unknown Author");
    assert_eq!(book.get_id(), "Title|UNKN|978");
    assert_eq!(
        book.get_metadata(),
        "Title by Unknown Author\n\n Desc\n\n Series: #12 of Saga \n\n Subjects: a, b, c\n\n Rights: Pub | CC | 978"
    );
}

fn sample_book_map() -> Vec<BookMap> {
    let names = [
        "03_The_Titan_39_s_Curse",
        "02_The_Sea_of_Monsters",
        "01_The_Lightning_Thief",
        "04_The_Battle_of_the_Labyrinth",
        "05_The_Last_Olympian",
    ];
    names
        .iter()
        .enumerate()
        .map(|(i, n)| {
            let path = format!("/Users/abhinavkumarsingh/Documents/{}.epub", n);
            BookMap::new(i as u128 + 1, n, "/library", "epub", &path)
        })
        .collect()
}

fn sample_sources() -> (Vec<(String, String)>, Vec<String>) {
    let mut found = Vec::new();
    let mut paths = Vec::new();
    for dir in ["book_source_1", "book_source_2"] {
        for book in ["new_book_1.epub", "new_book_2.epub", "new_book_3.epub"] {
            let path = format!("/tmp/{}/{}", dir, book);
            found.push((path.clone(), book.to_string()));
            paths.push(path);
        }
    }
    (found, paths)
}

#[test]
fn existing_sources_no_exsting_bookmap() {
    let books = merge_book_sources(&vec![], &files(&[("/tmp/books/new_book_1.epub", "new_book_1.epub")]));
    assert_eq!(type_of(&books, "/tmp/books/new_book_1.epub"), Some(BookFileTypes::EpubFileType));
}

#[test]
fn empty_source_file_and_bookmap() {
    let books = merge_book_sources(&vec![], &vec![]);
    assert_eq!(books.len(), 0);
}

#[test]
fn multiple_sources_and_books() {
    let (found, paths) = sample_sources();
    let books = merge_book_sources(&vec![], &found);
    assert_eq!(books.len(), 6);
    for p in &paths {
        assert_eq!(type_of(&books, p), Some(BookFileTypes::EpubFileType));
    }
}

#[test]
fn non_empty_bookmap_with_empty_sources() {
    let map = sample_book_map();
    let books = merge_book_sources(&map, &vec![]);
    assert_eq!(books.len(), 5);
    for m in &map {
        assert_eq!(type_of(&books, m.get_filepath()), Some(BookFileTypes::EpubFileType));
    }
}

#[test]
fn non_empty_bookmap_with_multiple_sources_and_books() {
    let map = sample_book_map();
    let (found, paths) = sample_sources();
    let books = merge_book_sources(&map, &found);
    assert_eq!(books.len(), 11);
    for p in &paths {
        assert_eq!(type_of(&books, p), Some(BookFileTypes::EpubFileType));
    }
    for m in &map {
        assert_eq!(type_of(&books, m.get_filepath()), Some(BookFileTypes::EpubFileType));
    }
}

#[test]
fn setup_creates_directories_then_files() {
    let steps = pipeline("/data/calico", "/config/calico");
    let plan: Vec<(StepKind, &str)> = steps.iter().map(|s| (s.get_kind(), s.get_path())).collect();
    assert_eq!(
        plan,
        vec![
            (StepKind::Directory, "/data/calico"),
            (StepKind::Directory, "/data/calico/CER_Books"),
            (StepKind::Directory, "/data/calico/CER_Epubs"),
            (StepKind::Directory, "/config/calico"),
            (StepKind::File, "/config/calico/settings.toml"),
            (StepKind::DefaultSources, "/config/calico/settings.toml"),
            (StepKind::File, "/config/calico/bookmarks.toml"),
            (StepKind::File, "/config/calico/bookmap.json"),
        ]
    );
    assert_eq!(create_books_directory("/d").get_path(), "/d/CER_Books");
    assert_eq!(bookmarks_pipeline("/c")[0].get_path(), "/c/bookmarks.toml");
}

#[test]
fn default_bookmarks_are_empty() {
    let b = Bookmarks::default();
    assert!(b.get("any book").is_none());
    assert!(b.get_bookmarks().is_empty());
}
