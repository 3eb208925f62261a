pub mod book;
pub mod constants;
pub mod filetypes;
pub mod library;
pub mod line;
pub mod samples;
pub mod settings;
