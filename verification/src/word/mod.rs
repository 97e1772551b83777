//! WordprocessingML (DOCX) editing: the package of parts, paragraph,
//! table, page, header and style operations.

pub mod xml;
pub mod error;
pub mod archive;
pub mod package;
pub mod content;
pub mod rewrite;
pub mod paragraph;
pub mod header_footer;
pub mod page;
pub mod table;
pub mod styles;
pub mod importer;
pub mod lifecycle;
pub mod inspect;
pub mod format;
pub mod media;
