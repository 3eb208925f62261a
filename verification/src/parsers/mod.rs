pub mod book_ids;
pub mod epub;
pub mod epub_xml;
pub mod paths;
pub mod xml_events;
pub mod laws;
