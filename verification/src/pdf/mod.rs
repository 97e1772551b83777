//! PDF text: ToUnicode character maps, page selection, text layout helpers
//! and RAG chunking.

pub mod cmap;
pub mod error;
pub mod outline;
pub mod chunker;
pub mod pages;
pub mod extract;
pub mod media;
pub mod transform;
