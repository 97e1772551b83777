//! Verified core of an office-document toolbox: PDF text decoding and
//! chunking, DOCX (WordprocessingML) editing, and spreadsheet helpers.

pub mod text;
pub mod num;
pub mod unicode;
pub mod pdf;
pub mod word;

pub mod excel;
