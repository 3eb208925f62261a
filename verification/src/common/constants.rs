//! Names and texts fixed by the library.

use vstd::prelude::*;

verus! {

pub const APPLICATION_NAME: &'static str = "calico_ebook_reader";

pub const APPLICATION_DOMAIN: &'static str = "com";

pub const APPLICATION_AUTHOR: &'static str = "Abhinav Kumar Singh";

pub const SETTINGS_FILENAME: &'static str = "settings.toml";

/// The bookmarks file, beside the settings.
pub const BOOKMARKS_FILENAME: &'static str = "bookmarks.toml";

/// The book map file, beside the settings.
pub const BOOKMAP_FILENAME: &'static str = "bookmap.json";

pub const LIBRARY_LIST_SECTION_NAME: &'static str = " Library ";

pub const LIBRARY_METADATA_SECTION_NAME: &'static str = " Metadata ";

pub const BOOKS_DIR_NAME: &'static str = "CER_Books";

pub const EPUB_DIR_NAME: &'static str = "CER_Epubs";

/// The content of the `mimetype` file of an EPUB package.
pub const EPUB_MIMETYPE: &'static str = "application/epub+zip";

/// Where an EPUB package names its package document.
pub const EPUB_ENTRY_POINT: &'static str = "META-INF/container.xml";

} // verus!
