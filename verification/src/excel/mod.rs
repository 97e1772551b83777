//! Spreadsheet (XLSX) operations: reading, searching, writing cells and
//! rows, sheet management, styling and grid edits. The workbook itself is
//! read and written by the caller; these functions decide what to read,
//! what to write and what to answer.

pub mod cli;
pub mod error;
pub mod writer;
pub mod formatter;
pub mod reader;
pub mod export;
