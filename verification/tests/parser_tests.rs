use calico::common::book::{Book, BookSection};
use calico::common::filetypes::BookFileTypes;
use calico::common::settings::BookMap;
use calico::parsers::book_ids::{book_folder_stem, get_book_folder_path, get_book_uuid, uuid_to_string};
use calico::parsers::epub::{section_from_content, validate_content_obf, validate_mimetype, RawEpub};
use calico::parsers::epub_xml::{
    extract_attr_value_from_attrs, extract_full_path, extract_metadata_value, EpubError, ScannedMetadata,
};
use calico::parsers::paths::{get_file_name_from_path, PathError};
use calico::parsers::xml_events::XmlAttribute;

fn attr(name: &str, value: &str) -> XmlAttribute {
    XmlAttribute::new(name.to_string(), value.to_string())
}

#[test]
fn filename_has_no_slash() -> Result<(), PathError> {
    let file_path = "somefile.txt";
    let res = get_file_name_from_path(file_path)?;
    assert_eq!(file_path, res);
    Ok(())
}

#[test]
fn multiple_slashes_in_file_path() -> Result<(), PathError> {
    let file_path = "some_dir1/some_dir2/some_dir3/jo_mama/hi_have_you_met_ted/file.txt";
    let file_name = "file.txt";
    let res = get_file_name_from_path(file_path)?;
    assert_eq!(res, file_name);
    Ok(())
}

#[test]
fn filename_get_when_empty() -> Result<(), PathError> {
    let file_path = "";
    let res = get_file_name_from_path(file_path)?;
    assert_eq!(res, "");
    Ok(())
}

#[test]
fn file_name_of_path_ending_in_slash_is_empty() {
    assert_eq!(get_file_name_from_path("a/b/").unwrap(), "");
}

#[test]
fn extracts_attribute_value_successfully() {
    let attributes = vec![attr("id", "123"), attr("full-path", "OPS/content.opf")];

    let result = extract_attr_value_from_attrs(&attributes, "full-path").unwrap();

    assert_eq!(result, "OPS/content.opf");
}

#[test]
fn returns_error_when_attribute_missing() {
    let attributes = vec![attr("id", "123")];

    let result = extract_attr_value_from_attrs(&attributes, "full-path");

    assert!(result.is_err());

    let error_message = result.unwrap_err().message();

    assert_eq!(error_message, "extract_attr_value_from_attrs: Not found attribute: full-path");
}

#[test]
fn returns_first_matching_attribute() {
    let attributes = vec![attr("full-path", "first.opf"), attr("full-path", "second.opf")];

    let result = extract_attr_value_from_attrs(&attributes, "full-path").unwrap();

    assert_eq!(result, "first.opf");
}

#[test]
fn works_with_empty_attribute_list() {
    let attributes = vec![];

    let result = extract_attr_value_from_attrs(&attributes, "full-path");

    assert!(result.is_err());
}

#[test]
fn attribute_name_matching_is_case_sensitive() {
    let attributes = vec![attr("Full-Path", "OPS/content.opf")];

    let result = extract_attr_value_from_attrs(&attributes, "full-path");

    assert!(result.is_err());
}

fn full_path_of(xml: &str) -> Option<String> {
    extract_full_path(xml.as_bytes())
}

#[test]
fn extracts_full_path_successfully() {
    let xml = r#"
            <container>
                <rootfiles>
                    <rootfile full-path="OPS/content.opf" />
                </rootfiles>
            </container>
            "#;
    assert_eq!(full_path_of(xml), Some("OPS/content.opf".to_string()));
}

#[test]
fn returns_none_when_rootfile_missing() {
    let xml = r#"
            <container>
                <rootfiles>
                </rootfiles>
            </container>
            "#;
    assert_eq!(full_path_of(xml), None);
}

#[test]
fn returns_none_when_full_path_missing() {
    let xml = r#"
            <container>
                <rootfiles>
                    <rootfile />
                </rootfiles>
            </container>
            "#;
    assert_eq!(full_path_of(xml), None);
}

#[test]
fn returns_first_rootfile_when_multiple_exist() {
    let xml = r#"
            <container>
                <rootfiles>
                    <rootfile full-path="first.opf" />
                    <rootfile full-path="second.opf" />
                </rootfiles>
            </container>
            "#;
    assert_eq!(full_path_of(xml), Some("first.opf".to_string()));
}

#[test]
fn full_path_is_none_for_malformed_container() {
    assert_eq!(full_path_of("<container><rootfiles"), None);
}

#[test]
fn not_epub_mimetype() {
    assert_eq!(validate_mimetype("someotherfiletype"), false);
}

#[test]
fn is_epub_mimetype() {
    assert_eq!(validate_mimetype("application/epub+zip"), true);
}

#[test]
fn container_without_rootfile_is_not_valid() {
    assert!(validate_content_obf(br#"<container><rootfile full-path="a.opf"/></container>"#));
    assert!(!validate_content_obf(b"<container></container>"));
}

fn empty_map() -> Vec<BookMap> {
    Vec::new()
}

#[test]
fn a_new_book() {
    let mut book_map = empty_map();
    let filename = "somenewfile.epub";
    let filepath = format!("/tmp/bookmap.json/{}", filename);

    let res = get_book_uuid("epub", filename, "/tmp", &filepath, &mut book_map);

    assert_ne!(res, 0);
    assert_eq!(book_map.len(), 1);
    assert_eq!(book_map[0].get_uuid(), res);
    assert_eq!(book_map[0].get_folderpath(), format!("/tmp/{}", uuid_to_string(res)));
    assert_eq!((res >> 76) & 0xf, 4);
}

#[test]
fn an_old_book() {
    let expected: u128 = 0x550e8400e29b41d4a716446655440000;
    let mut book_map = vec![BookMap::new(
        expected,
        "someoldfile.epub",
        "/some/folder/path",
        "epub",
        "/some/path/someoldfile.epub",
    )];

    let res = get_book_uuid("epub", "someoldfile.epub", "/tmp", "/some/path/someoldfile.epub", &mut book_map);

    assert_eq!(res, expected);
    assert_eq!(book_map.len(), 1);
}

#[test]
fn uuid_is_written_hyphenated_in_lower_case() {
    assert_eq!(
        uuid_to_string(0x550e8400e29b41d4a716446655440000),
        "550e8400-e29b-41d4-a716-446655440000"
    );
    assert_eq!(uuid_to_string(0), "00000000-0000-0000-0000-000000000000");
}

#[test]
fn other_book_type_than_known() {
    let filename = "somerandomfile.someext";
    let filepath = format!("I/already/befriended/your/mom/lasnight/{}", filename);
    let file_type = BookFileTypes::new(filename.split(".").last().unwrap());
    let mut book_map = empty_map();

    let err = get_book_folder_path(&file_type, &filepath, &mut book_map, "/tmp/epubs/").unwrap_err();

    assert!(err.message().contains("Unknown file types"), "Some unknown error occurred: {:?}", err);
}

#[test]
fn empty_file_name() {
    let filenames: [&str; 3] = [".epub", ".", ""];

    for filename in filenames {
        let filepath = format!("I/already/befriended/your/mom/lasnight/{}", filename);
        let file_type = BookFileTypes::new(filename.split(".").last().unwrap());
        let mut book_map = empty_map();

        let err = get_book_folder_path(&file_type, &filepath, &mut book_map, "/tmp/epubs/").unwrap_err();

        assert!(err.message().contains("This file has an emtpy name"), "Some unknown error occurred: {:?}", err);
        assert!(book_map.is_empty());
    }
}

#[test]
fn folder_path_reuses_recorded_uuid() {
    let mut book_map = vec![BookMap::new(7, "novel", "/x", "epub", "/books/novel.epub")];
    let path = get_book_folder_path(&BookFileTypes::EpubFileType, "/books/novel.tar.epub", &mut book_map, "/data/epubs").unwrap();
    assert_eq!(path, "/data/epubs/00000000-0000-0000-0000-000000000007");
    assert_eq!(book_map.len(), 1);
    assert_eq!(book_folder_stem(&BookFileTypes::EpubFileType, "dir/  .epub"), Err(PathError::EmptyFileName));
}

const PACKAGE: &str = r#"<?xml version="1.0"?>
<package>
  <metadata>
    <title>The Book</title>
    <creator>Jane Doe</creator>
    <description>About things</description>
    <subject>Fiction</subject>
    <subject>Adventure</subject>
    <identifier scheme="x">urn:other</identifier>
    <identifier scheme="isbn">12345</identifier>
    <publisher>Pub House</publisher>
    <rights>All rights</rights>
    <meta name="calibre:series" content="Saga"/>
    <meta name="calibre:series_index" content="2.0"/>
  </metadata>
  <manifest>
    <item id="c1" href="text/one.xhtml"/>
    <item id="c2" href="text/two.xhtml"/>
    <item id="c1" href="text/one-b.xhtml"/>
  </manifest>
  <spine>
    <itemref idref="c2"/>
    <itemref idref="missing"/>
    <itemref idref="c1"/>
  </spine>
</package>"#;

#[test]
fn reads_metadata_of_a_package_document() {
    let m = ScannedMetadata::read(PACKAGE.as_bytes());
    assert_eq!(m.get_series_indexes(), &vec!["2.0".to_string()]);
    let (title, author, description, series, subjects, isbn, publisher, rights) = m.into_parts();
    assert_eq!(title, "The Book");
    assert_eq!(author, "Jane Doe");
    assert_eq!(description, "About things");
    assert_eq!(series, "Saga");
    assert_eq!(subjects, vec!["Fiction".to_string(), "Adventure".to_string()]);
    assert_eq!(isbn, "12345");
    assert_eq!(publisher, "Pub House");
    assert_eq!(rights, "All rights");
}

#[test]
fn metadata_defaults_when_package_has_none() {
    let m = ScannedMetadata::read(b"<package><title>Outside</title></package>");
    let (title, author, description, series, subjects, isbn, publisher, rights) = m.into_parts();
    assert_eq!(title, "Unknown Title");
    assert_eq!(author, "Unknown author");
    assert_eq!(description, "N/A");
    assert_eq!(series, "N/A");
    assert!(subjects.is_empty());
    assert_eq!(isbn, "N/A");
    assert_eq!(publisher, "N/A");
    assert_eq!(rights, "N/A");
}

fn unpacked_epub() -> RawEpub {
    let mut raw = RawEpub::new("/books/b.epub");
    raw.set_extracted_directory_path("/data/b");
    raw
}

#[test]
fn epub_steps_refuse_out_of_order() {
    let mut raw = RawEpub::new("/books/b.epub");
    let err = raw.validate("application/epub+zip", true, b"").unwrap_err();
    assert!(matches!(err, EpubError::NotFound(_)));
    assert_eq!(err.message(), "validate: This epub file doesn't exist");
    assert_eq!(raw.init(b"").unwrap_err().message(), "init: The following epub is not validated yet.");
    assert_eq!(
        raw.extract_epub_metadata(b"").err().unwrap().message(),
        "extract_epub_metadata: This book is not validated"
    );
    assert_eq!(
        raw.extract_epub_content(b"").unwrap_err().message(),
        "extract_epub_content: This epub is not validated."
    );
    assert_eq!(raw.get_rootfile_path().unwrap_err().message(), "get_rootfile_path: Rootfile path has not been set");
}

#[test]
fn epub_pipeline_reads_sections_in_spine_order() {
    let container = br#"<container><rootfiles><rootfile full-path="OPS/content.opf"/></rootfiles></container>"#;
    let mut raw = unpacked_epub();
    raw.validate("application/epub+zip", true, container).unwrap();
    assert!(raw.get_is_validated());
    assert_eq!(raw.entry_point_path(), Some("/data/b/META-INF/container.xml".to_string()));
    raw.init(container).unwrap();
    assert_eq!(raw.get_entry_file_path(), Some("/data/b/META-INF/container.xml"));
    assert_eq!(raw.get_rootfile_path().unwrap(), "/data/b/OPS/content.opf");
    let files = raw.extract_epub_content(PACKAGE.as_bytes()).unwrap();
    assert_eq!(
        files,
        vec![
            ("c2".to_string(), "/data/b/OPS/text/two.xhtml".to_string()),
            ("c1".to_string(), "/data/b/OPS/text/one-b.xhtml".to_string()),
        ]
    );
    let meta = raw.extract_epub_metadata(PACKAGE.as_bytes()).ok().unwrap().into_book_metadata(2);
    let book = Book::new(meta, vec![]);
    assert_eq!(book.get_title(), "The Book by Jane Doe");
    assert_eq!(book.get_id(), "The Book|Jane Doe|12345");
}

#[test]
fn invalid_mimetype_makes_package_invalid() {
    let container = br#"<container><rootfile full-path="a.opf"/></container>"#;
    let mut raw = unpacked_epub();
    raw.validate("text/plain", true, container).unwrap();
    assert!(!raw.get_is_validated());
    raw.validate("application/epub+zip", false, container).unwrap();
    assert!(!raw.get_is_validated());
}

#[test]
fn section_text_is_the_body_with_line_breaks() {
    let xhtml = b"<html><head><title>T</title></head><body><p>One</p><p>Two <b>bold</b></p></body><p>after</p></html>";
    let s: BookSection = section_from_content("c1", xhtml);
    assert_eq!(s.get_id(), "c1");
    assert_eq!(s.get_content(), "One\nTwo bold\n\n");
}

#[test]
fn metadata_value_finds_first_matching_element() {
    let xml = PACKAGE.as_bytes();
    assert_eq!(extract_metadata_value(xml, "title", None, None), Some("The Book".to_string()));
    assert_eq!(extract_metadata_value(xml, "subject", None, None), Some("Fiction".to_string()));
    assert_eq!(
        extract_metadata_value(xml, "identifier", Some("scheme"), Some("isbn")),
        Some("12345".to_string())
    );
    assert_eq!(
        extract_metadata_value(xml, "identifier", Some("scheme"), None),
        Some("urn:other".to_string())
    );
    assert_eq!(extract_metadata_value(xml, "identifier", Some("scheme"), Some("ISBN")), None);
    assert_eq!(extract_metadata_value(xml, "item", None, None), None);
}

#[test]
fn metadata_value_only_inside_metadata() {
    let xml = b"<package><title>Outside</title><metadata><creator/><title>Inside</title></metadata></package>";
    assert_eq!(extract_metadata_value(xml, "title", None, None), Some("Inside".to_string()));
    assert_eq!(extract_metadata_value(xml, "creator", None, None), None);
    assert_eq!(extract_metadata_value(b"<metadata><title>", "title", None, None), None);
}

#[test]
fn asking_twice_gives_the_same_uuid() {
    let mut book_map = empty_map();
    let first = get_book_uuid("epub", "twice", "/tmp", "/books/twice.epub", &mut book_map);
    let second = get_book_uuid("epub", "twice", "/tmp", "/books/twice.epub", &mut book_map);
    assert_eq!(first, second);
    assert_eq!(book_map.len(), 1);
}

#[test]
fn fifty_books_get_fifty_entries() {
    let mut book_map = empty_map();
    let mut uuids = Vec::new();
    for i in 0..50 {
        let filename = format!("book_{}", i);
        let filepath = format!("/some/path/book_{}.epub", i);
        uuids.push(get_book_uuid("epub", &filename, "/tmp", &filepath, &mut book_map));
    }
    assert_eq!(uuids.len(), 50);
    assert_eq!(book_map.len(), 50);
}
