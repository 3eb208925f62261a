//! An EPUB file on its way to becoming a book: where it was unpacked,
//! whether the package checks out, where its package document is, and the
//! reading order of its content documents.

use vstd::prelude::*;
use vstd::string::StringExecFns;
use indexmap::IndexMap;
use crate::common::book::{BookMetadata, BookSection, MetadataView};
use crate::common::constants::{EPUB_ENTRY_POINT, EPUB_MIMETYPE};
use crate::parsers::epub_xml::{
    body_scan, body_text, extract_full_path, not_found_error, other_error, find_manifest_href, full_path_of, lookup_last,
    meta_scan, spine_and_manifest, spine_scan, EpubError, MetaScan, ScannedMetadata,
};
use crate::parsers::paths::{path_join, path_join_of, path_parent, path_parent_of};
use crate::parsers::xml_events::{events_view, is_named, parse_xml_events, xml_events_of};

verus! {

#[verifier::external_type_specification]
#[verifier::external_body]
#[verifier::reject_recursive_types(K)]
#[verifier::reject_recursive_types(V)]
#[verifier::reject_recursive_types(S)]
pub struct ExIndexMap<K, V, S>(IndexMap<K, V, S>);

/// The entries of an `IndexMap` in their order.
pub uninterp spec fn index_map_entries(m: IndexMap<String, String>) -> Seq<(Seq<char>, Seq<char>)>;

/// Entries after `IndexMap::insert(k, v)`: an entry with key `k` keeps its
/// place and takes the value `v`; otherwise `(k, v)` comes last.
pub open spec fn entries_insert(
    entries: Seq<(Seq<char>, Seq<char>)>,
    k: Seq<char>,
    v: Seq<char>,
) -> Seq<(Seq<char>, Seq<char>)>
    decreases entries.len(),
{
    if entries.len() == 0 {
        seq![(k, v)]
    } else if entries[0].0 == k {
        entries.update(0, (k, v))
    } else {
        seq![entries[0]] + entries_insert(entries.drop_first(), k, v)
    }
}

/// `IndexMap::new`. Trusted: the map is empty.
#[verifier::external_body]
fn index_map_new() -> (m: IndexMap<String, String>)
    ensures
        index_map_entries(m) == Seq::<(Seq<char>, Seq<char>)>::empty(),
{
    IndexMap::new()
}

/// `IndexMap::insert`. Trusted, as its documentation says: an existing
/// entry with an equal key keeps its place and gets the new value, else the
/// pair is added last (see [`entries_insert`]).
#[verifier::external_body]
fn index_map_insert(m: &mut IndexMap<String, String>, key: String, value: String)
    ensures
        index_map_entries(*final(m)) == entries_insert(index_map_entries(*old(m)), key@, value@),
{
    m.insert(key, value);
}

/// `IndexMap::len`. Trusted: the number of entries.
#[verifier::external_body]
fn index_map_len(m: &IndexMap<String, String>) -> (n: usize)
    ensures
        n == index_map_entries(*m).len(),
{
    m.len()
}

/// `IndexMap::get_index`, copying the entry out. Trusted: entry `i` in
/// order, which exists since `i` is below the length.
#[verifier::external_body]
fn index_map_entry(m: &IndexMap<String, String>, i: usize) -> (r: (String, String))
    requires
        i < index_map_entries(*m).len(),
    ensures
        (r.0@, r.1@) == index_map_entries(*m)[i as int],
{
    let (k, v) = m.get_index(i).unwrap();
    (k.clone(), v.clone())
}

/// The state of an EPUB file as plain values.
pub struct RawEpubView {
    pub file_path: Seq<char>,
    pub extracted_directory_path: Option<Seq<char>>,
    pub is_validated: bool,
    pub entry_file_path: Option<Seq<char>>,
    pub rootfile_path: Option<Seq<char>>,
    pub spine_to_manifest: Seq<(Seq<char>, Seq<char>)>,
}

pub struct RawEpub {
    file_path: String,
    extracted_directory_path: Option<String>,
    is_validated: bool,
    entry_file_path: Option<String>,
    rootfile_path: Option<String>,
    spine_to_mainfest_map: IndexMap<String, String>,
}

pub open spec fn opt_str(o: Option<String>) -> Option<Seq<char>> {
    match o {
        Some(s) => Some(s@),
        None => None,
    }
}

impl View for RawEpub {
    type V = RawEpubView;

    closed spec fn view(&self) -> RawEpubView {
        RawEpubView {
            file_path: self.file_path@,
            extracted_directory_path: opt_str(self.extracted_directory_path),
            is_validated: self.is_validated,
            entry_file_path: opt_str(self.entry_file_path),
            rootfile_path: opt_str(self.rootfile_path),
            spine_to_manifest: index_map_entries(self.spine_to_mainfest_map),
        }
    }
}

/// The spine-to-manifest entries after adding, for each spine id in order
/// whose manifest item exists, the id with that item's `href`.
pub open spec fn spine_fill(
    entries: Seq<(Seq<char>, Seq<char>)>,
    spine_ids: Seq<Seq<char>>,
    items: Seq<(Seq<char>, Seq<char>)>,
) -> Seq<(Seq<char>, Seq<char>)>
    decreases spine_ids.len(),
{
    if spine_ids.len() == 0 {
        entries
    } else {
        let e = spine_fill(entries, spine_ids.drop_last(), items);
        match lookup_last(items, spine_ids.last()) {
            Some(href) => entries_insert(e, spine_ids.last(), href),
            None => e,
        }
    }
}

/// The package document declares a rootfile.
pub open spec fn spec_content_obf_valid(container_xml: Seq<u8>) -> bool {
    full_path_of(xml_events_of(container_xml)) is Some
}

/// The `mimetype` file of a package says EPUB.
pub fn validate_mimetype(mimetype_contents: &str) -> (b: bool)
    ensures
        b == (mimetype_contents@ == EPUB_MIMETYPE@),
{
    let s = String::from_str(mimetype_contents);
    is_named(&s, EPUB_MIMETYPE)
}

/// `container.xml` declares a rootfile.
pub fn validate_content_obf(container_xml: &[u8]) -> (b: bool)
    ensures
        b == spec_content_obf_valid(container_xml@),
{
    extract_full_path(container_xml).is_some()
}

/// The section of the content document with spine id `spine_id`: its body
/// text.
pub fn section_from_content(spine_id: &str, content_xml: &[u8]) -> (s: BookSection)
    ensures
        s@ == (spine_id@, body_scan(xml_events_of(content_xml@)).text),
{
    let events = parse_xml_events(content_xml);
    let text = body_text(&events);
    BookSection::new(String::from_str(spine_id), text)
}

impl ScannedMetadata {
    /// The book metadata read, with `series_order_number` as the series
    /// position; every field is known, falling back to the defaults of
    /// [`crate::parsers::epub_xml::meta_start`].
    pub fn into_book_metadata(self, series_order_number: usize) -> (m: BookMetadata)
        ensures
            m@ == (MetadataView {
                title: self@.title,
                author: Some(self@.author),
                description: Some(self@.description),
                series: Some(self@.series),
                series_order_number: Some(series_order_number as nat),
                subjects: Some(self@.subjects),
                isbn: Some(self@.isbn),
                publisher: Some(self@.publisher),
                rights: Some(self@.rights),
            }),
    {
        let (title, author, description, series, subjects, isbn, publisher, rights) =
            self.into_parts();
        BookMetadata::new(
            title,
            Some(author),
            Some(description),
            Some(series),
            Some(series_order_number),
            Some(subjects),
            Some(isbn),
            Some(publisher),
            Some(rights),
        )
    }
}

impl RawEpub {
    pub fn new(file_path: &str) -> (e: RawEpub)
        ensures
            e@ == (RawEpubView {
                file_path: file_path@,
                extracted_directory_path: None,
                is_validated: false,
                entry_file_path: None,
                rootfile_path: None,
                spine_to_manifest: Seq::empty(),
            }),
    {
        RawEpub {
            file_path: String::from_str(file_path),
            extracted_directory_path: None,
            is_validated: false,
            entry_file_path: None,
            rootfile_path: None,
            spine_to_mainfest_map: index_map_new(),
        }
    }

    pub fn get_file_path(&self) -> (s: &str)
        ensures
            s@ == self@.file_path,
    {
        self.file_path.as_str()
    }

    pub fn get_extracted_directory_path(&self) -> (r: Option<&str>)
        ensures
            match r {
                Some(s) => self@.extracted_directory_path == Some(s@),
                None => self@.extracted_directory_path is None,
            },
    {
        match &self.extracted_directory_path {
            Some(v) => Some(v.as_str()),
            None => None,
        }
    }

    pub fn get_is_validated(&self) -> (b: bool)
        ensures
            b == self@.is_validated,
    {
        self.is_validated
    }

    pub fn get_entry_file_path(&self) -> (r: Option<&str>)
        ensures
            match r {
                Some(s) => self@.entry_file_path == Some(s@),
                None => self@.entry_file_path is None,
            },
    {
        match &self.entry_file_path {
            Some(v) => Some(v.as_str()),
            None => None,
        }
    }

    pub fn get_rootfile_path(&self) -> (r: Result<&str, EpubError>)
        ensures
            match r {
                Ok(s) => self@.rootfile_path == Some(s@),
                Err(e) => self@.rootfile_path is None && e is Other && e.spec_message()
                    == "get_rootfile_path: Rootfile path has not been set"@,
            },
    {
        match &self.rootfile_path {
            Some(v) => Ok(v.as_str()),
            None => Err(
                EpubError::Other(
                    String::from_str("get_rootfile_path: Rootfile path has not been set"),
                ),
            ),
        }
    }

    pub fn get_spine_to_manifest_map(&self) -> (m: &IndexMap<String, String>)
        ensures
            index_map_entries(*m) == self@.spine_to_manifest,
    {
        &self.spine_to_mainfest_map
    }

    pub fn set_extracted_directory_path(&mut self, path: &str)
        ensures
            final(self)@ == (RawEpubView { extracted_directory_path: Some(path@), ..old(self)@ }),
    {
        self.extracted_directory_path = Some(String::from_str(path));
    }

    pub fn set_is_validated(&mut self, validated_flag: bool)
        ensures
            final(self)@ == (RawEpubView { is_validated: validated_flag, ..old(self)@ }),
    {
        self.is_validated = validated_flag;
    }

    pub fn set_entry_file_path(&mut self, entry_file_path: &str)
        ensures
            final(self)@ == (RawEpubView { entry_file_path: Some(entry_file_path@), ..old(self)@ }),
    {
        self.entry_file_path = Some(String::from_str(entry_file_path));
    }

    pub fn set_rootfile_path(&mut self, rootfile_path: Option<String>)
        ensures
            final(self)@ == (RawEpubView { rootfile_path: opt_str(rootfile_path), ..old(self)@ }),
    {
        self.rootfile_path = rootfile_path;
    }

    /// Adds the spine item `key` with content document `value`, or gives an
    /// existing one that document.
    pub fn push_to_spine_manifest_map(&mut self, key: &str, value: &str)
        ensures
            final(self)@ == (RawEpubView {
                spine_to_manifest: entries_insert(old(self)@.spine_to_manifest, key@, value@),
                ..old(self)@
            }),
    {
        index_map_insert(
            &mut self.spine_to_mainfest_map,
            String::from_str(key),
            String::from_str(value),
        );
    }

    /// Checks the unpacked package: valid when `META-INF/container.xml`
    /// exists, the `mimetype` file says EPUB and the container declares a
    /// rootfile. An error when the file was not unpacked.
    pub fn validate(&mut self, mimetype_contents: &str, meta_inf_exists: bool, container_xml: &[u8]) -> (r:
        Result<(), EpubError>)
        ensures
            match old(self)@.extracted_directory_path {
                None => final(self)@ == old(self)@ && not_found_error(r, "validate: This epub file doesn't exist"@),
                Some(_) => r is Ok && final(self)@ == (RawEpubView {
                    is_validated: meta_inf_exists && mimetype_contents@ == EPUB_MIMETYPE@
                        && spec_content_obf_valid(container_xml@),
                    ..old(self)@
                }),
            },
    {
        if self.extracted_directory_path.is_none() {
            return Err(
                EpubError::NotFound(String::from_str("validate: This epub file doesn't exist")),
            );
        }
        let is_mimetype_valid = validate_mimetype(mimetype_contents);
        let is_content_obf_valid = validate_content_obf(container_xml);
        self.set_is_validated(meta_inf_exists && is_mimetype_valid && is_content_obf_valid);
        Ok(())
    }

    /// Where [`RawEpub::init`] reads `container.xml` from, once the package
    /// is validated and unpacked.
    pub fn entry_point_path(&self) -> (r: Option<String>)
        ensures
            match r {
                Some(p) => self@.is_validated && (self@.extracted_directory_path matches Some(d)
                    && p@ == path_join_of(d, EPUB_ENTRY_POINT@)),
                None => !self@.is_validated || self@.extracted_directory_path is None,
            },
    {
        if !self.is_validated {
            return None;
        }
        match &self.extracted_directory_path {
            Some(d) => Some(path_join(d.as_str(), EPUB_ENTRY_POINT)),
            None => None,
        }
    }

    /// Records where `container.xml` is and where the package document it
    /// declares is, both under the unpacked directory.
    pub fn init(&mut self, container_xml: &[u8]) -> (r: Result<(), EpubError>)
        ensures
            !old(self)@.is_validated ==> final(self)@ == old(self)@ && other_error(r, "init: The following epub is not validated yet."@),
            old(self)@.is_validated && old(self)@.extracted_directory_path is None
                ==> final(self)@ == old(self)@ && not_found_error(r, "init: This epub file doesn't exist"@),
            old(self)@.is_validated ==> match old(self)@.extracted_directory_path {
                Some(d) => r is Ok && final(self)@ == (RawEpubView {
                    entry_file_path: Some(path_join_of(d, EPUB_ENTRY_POINT@)),
                    rootfile_path: match full_path_of(xml_events_of(container_xml@)) {
                        Some(p) => Some(path_join_of(d, p)),
                        None => None,
                    },
                    ..old(self)@
                }),
                None => true,
            },
    {
        if !self.is_validated {
            return Err(
                EpubError::Other(String::from_str("init: The following epub is not validated yet.")),
            );
        }
        let edp = match &self.extracted_directory_path {
            Some(d) => d.clone(),
            None => {
                return Err(
                    EpubError::NotFound(String::from_str("init: This epub file doesn't exist")),
                );
            },
        };
        let entry = path_join(edp.as_str(), EPUB_ENTRY_POINT);
        self.set_entry_file_path(entry.as_str());
        let rootfile = match extract_full_path(container_xml) {
            Some(p) => Some(path_join(edp.as_str(), p.as_str())),
            None => None,
        };
        self.set_rootfile_path(rootfile);
        Ok(())
    }

    /// Reads the book's metadata from its package document.
    pub fn extract_epub_metadata(&self, rootfile_xml: &[u8]) -> (r: Result<ScannedMetadata, EpubError>)
        ensures
            !self@.is_validated ==> other_error(r, "extract_epub_metadata: This book is not validated"@),
            self@.is_validated && self@.rootfile_path is None ==> other_error(r, "get_rootfile_path: Rootfile path has not been set"@),
            self@.is_validated && self@.rootfile_path is Some ==> (r matches Ok(m) && m@ == meta_scan(
                xml_events_of(rootfile_xml@),
            )),
    {
        if !self.is_validated {
            return Err(
                EpubError::Other(String::from_str("extract_epub_metadata: This book is not validated")),
            );
        }
        match self.get_rootfile_path() {
            Err(e) => Err(e),
            Ok(_) => {
                Ok(ScannedMetadata::read(rootfile_xml))
            },
        }
    }

    /// Adds to the spine-to-manifest map each spine item of the package
    /// document, in spine order, with the `href` of its manifest item.
    pub fn map_spine_to_manifest(&mut self, rootfile_xml: &[u8]) -> (r: Result<(), EpubError>)
        ensures
            old(self)@.rootfile_path is None ==> final(self)@ == old(self)@ && other_error(r, "get_rootfile_path: Rootfile path has not been set"@),
            old(self)@.rootfile_path is Some ==> r is Ok && final(self)@ == (RawEpubView {
                spine_to_manifest: spine_fill(
                    old(self)@.spine_to_manifest,
                    spine_scan(xml_events_of(rootfile_xml@)).spine_ids,
                    spine_scan(xml_events_of(rootfile_xml@)).items,
                ),
                ..old(self)@
            }),
    {
        if let Err(e) = self.get_rootfile_path() {
            return Err(e);
        }
        let events = parse_xml_events(rootfile_xml);
        let (ids, items) = spine_and_manifest(&events);
        let ghost ids_v = ids@.map_values(|s: String| s@);
        let ghost items_v = items@.map_values(|p: (String, String)| (p.0@, p.1@));
        let ghost start = self@;
        for i in 0..ids.len()
            invariant
                ids_v == ids@.map_values(|s: String| s@),
                items_v == items@.map_values(|p: (String, String)| (p.0@, p.1@)),
                self@ == (RawEpubView {
                    spine_to_manifest: spine_fill(
                        start.spine_to_manifest,
                        ids_v.take(i as int),
                        items_v,
                    ),
                    ..start
                }),
        {
            proof {
                assert(ids_v.take(i + 1).drop_last() =~= ids_v.take(i as int));
                assert(ids_v.take(i + 1).last() == ids@[i as int]@);
            }
            match find_manifest_href(&items, &ids[i]) {
                Some(href) => {
                    self.push_to_spine_manifest_map(ids[i].as_str(), href.as_str());
                },
                None => {},
            }
        }
        proof {
            assert(ids_v.take(ids.len() as int) =~= ids_v);
        }
        Ok(())
    }

    /// The content documents to read, in spine order: each spine id with
    /// the document's path, the `href` taken relative to the directory of
    /// the package document.
    pub fn extract_epub_content(&mut self, rootfile_xml: &[u8]) -> (r: Result<
        Vec<(String, String)>,
        EpubError,
    >)
        ensures
            !old(self)@.is_validated ==> final(self)@ == old(self)@ && other_error(r, "extract_epub_content: This epub is not validated."@),
            old(self)@.is_validated && old(self)@.rootfile_path is None ==> other_error(r, "get_rootfile_path: Rootfile path has not been set"@),
            old(self)@.is_validated ==> match old(self)@.rootfile_path {
                Some(rf) => {
                    &&& final(self)@ == (RawEpubView {
                        spine_to_manifest: spine_fill(
                            old(self)@.spine_to_manifest,
                            spine_scan(xml_events_of(rootfile_xml@)).spine_ids,
                            spine_scan(xml_events_of(rootfile_xml@)).items,
                        ),
                        ..old(self)@
                    })
                    &&& match path_parent_of(rf) {
                        None => other_error(r, "extract_epub_content: rootfile_path could not be mapped to PathBuf correctly"@),
                        Some(base) => r matches Ok(list) && list@.map_values(
                            |p: (String, String)| (p.0@, p.1@),
                        ) == final(self)@.spine_to_manifest.map_values(
                            |e: (Seq<char>, Seq<char>)| (e.0, path_join_of(base, e.1)),
                        ),
                    }
                },
                None => true,
            },
    {
        if !self.is_validated {
            return Err(
                EpubError::Other(String::from_str("extract_epub_content: This epub is not validated.")),
            );
        }
        if let Err(e) = self.map_spine_to_manifest(rootfile_xml) {
            return Err(e);
        }
        let rf = match &self.rootfile_path {
            Some(p) => p.clone(),
            None => {
                return Err(
                    EpubError::Other(String::from_str("get_rootfile_path: Rootfile path has not been set")),
                );
            },
        };
        let base = match path_parent(rf.as_str()) {
            Some(b) => b,
            None => {
                return Err(
                    EpubError::Other(
                        String::from_str(
                            "extract_epub_content: rootfile_path could not be mapped to PathBuf correctly",
                        ),
                    ),
                );
            },
        };
        let ghost entries = self@.spine_to_manifest;
        let ghost f = |e: (Seq<char>, Seq<char>)| (e.0, path_join_of(base@, e.1));
        let n = index_map_len(&self.spine_to_mainfest_map);
        let mut out: Vec<(String, String)> = Vec::new();
        for i in 0..n
            invariant
                n == entries.len(),
                entries == index_map_entries(self.spine_to_mainfest_map),
                f == (|e: (Seq<char>, Seq<char>)| (e.0, path_join_of(base@, e.1))),
                out@.map_values(|p: (String, String)| (p.0@, p.1@)) == entries.take(
                    i as int,
                ).map_values(f),
        {
            let (id, href) = index_map_entry(&self.spine_to_mainfest_map, i);
            let path = path_join(base.as_str(), href.as_str());
            let ghost before = out@;
            out.push((id, path));
            proof {
                let e = entries[i as int];
                assert(f(e) == (id@, path@));
                assert(entries.take(i + 1).map_values(f) =~= entries.take(i as int).map_values(
                    f,
                ).push(f(e)));
                assert(out@.map_values(|p: (String, String)| (p.0@, p.1@)) =~= before.map_values(
                    |p: (String, String)| (p.0@, p.1@),
                ).push((id@, path@)));
            }
        }
        proof {
            assert(entries.take(n as int) =~= entries);
        }
        Ok(out)
    }
}

} // verus!
