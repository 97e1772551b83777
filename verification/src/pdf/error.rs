use vstd::prelude::*;

use crate::text::{contains_chars, occurs_at, push_str, str_chars};
use crate::unicode::{lowercase, to_lowercase};

verus! {

/// The body of an error reply: `status` is always `"error"`.
pub struct ErrorResponse {
    pub status: String,
    pub error_type: String,
    pub message: String,
}

/// Errors of the PDF tools, each with a human-readable message.
pub enum PdfCliError {
    Io(String),
    CorruptedDocument(String),
    EncryptedPdf(String),
    InvalidParameter(String),
    NotFound(String),
    FontMappingFailed(String),
    LayoutAnalysisFailed(String),
    UnsupportedOperation(String),
}

/// The `error_type` name that each variant reports.
pub open spec fn error_type_name(e: PdfCliError) -> Seq<char> {
    match e {
        PdfCliError::Io(_) => "IoError"@,
        PdfCliError::CorruptedDocument(_) => "CorruptedDocumentError"@,
        PdfCliError::EncryptedPdf(_) => "EncryptedPdfError"@,
        PdfCliError::InvalidParameter(_) => "InvalidParameterError"@,
        PdfCliError::NotFound(_) => "NotFoundError"@,
        PdfCliError::FontMappingFailed(_) => "FontMappingError"@,
        PdfCliError::LayoutAnalysisFailed(_) => "LayoutAnalysisError"@,
        PdfCliError::UnsupportedOperation(_) => "UnsupportedOperationError"@,
    }
}

/// The message that each variant carries.
pub open spec fn error_message(e: PdfCliError) -> Seq<char> {
    match e {
        PdfCliError::Io(m) => m@,
        PdfCliError::CorruptedDocument(m) => m@,
        PdfCliError::EncryptedPdf(m) => m@,
        PdfCliError::InvalidParameter(m) => m@,
        PdfCliError::NotFound(m) => m@,
        PdfCliError::FontMappingFailed(m) => m@,
        PdfCliError::LayoutAnalysisFailed(m) => m@,
        PdfCliError::UnsupportedOperation(m) => m@,
    }
}

impl PdfCliError {
    pub fn io(msg: String) -> (e: Self)
        ensures
            e == PdfCliError::Io(msg),
    {
        PdfCliError::Io(msg)
    }

    pub fn corrupted_document(msg: String) -> (e: Self)
        ensures
            e == PdfCliError::CorruptedDocument(msg),
    {
        PdfCliError::CorruptedDocument(msg)
    }

    pub fn encrypted_pdf(msg: String) -> (e: Self)
        ensures
            e == PdfCliError::EncryptedPdf(msg),
    {
        PdfCliError::EncryptedPdf(msg)
    }

    pub fn invalid_parameter(msg: String) -> (e: Self)
        ensures
            e == PdfCliError::InvalidParameter(msg),
    {
        PdfCliError::InvalidParameter(msg)
    }

    pub fn not_found(msg: String) -> (e: Self)
        ensures
            e == PdfCliError::NotFound(msg),
    {
        PdfCliError::NotFound(msg)
    }

    pub fn font_mapping(msg: String) -> (e: Self)
        ensures
            e == PdfCliError::FontMappingFailed(msg),
    {
        PdfCliError::FontMappingFailed(msg)
    }

    pub fn layout_failed(msg: String) -> (e: Self)
        ensures
            e == PdfCliError::LayoutAnalysisFailed(msg),
    {
        PdfCliError::LayoutAnalysisFailed(msg)
    }

    pub fn unsupported(msg: String) -> (e: Self)
        ensures
            e == PdfCliError::UnsupportedOperation(msg),
    {
        PdfCliError::UnsupportedOperation(msg)
    }

    /// The reply body for this error.
    pub fn to_error_response(&self) -> (r: ErrorResponse)
        ensures
            r.status@ == "error"@,
            r.error_type@ == error_type_name(*self),
            r.message@ == error_message(*self),
    {
        let (error_type, message) = match self {
            PdfCliError::Io(m) => ("IoError", m.clone()),
            PdfCliError::CorruptedDocument(m) => ("CorruptedDocumentError", m.clone()),
            PdfCliError::EncryptedPdf(m) => ("EncryptedPdfError", m.clone()),
            PdfCliError::InvalidParameter(m) => ("InvalidParameterError", m.clone()),
            PdfCliError::NotFound(m) => ("NotFoundError", m.clone()),
            PdfCliError::FontMappingFailed(m) => ("FontMappingError", m.clone()),
            PdfCliError::LayoutAnalysisFailed(m) => ("LayoutAnalysisError", m.clone()),
            PdfCliError::UnsupportedOperation(m) => ("UnsupportedOperationError", m.clone()),
        };
        ErrorResponse { status: "error".to_owned(), error_type: error_type.to_owned(), message }
    }
}

/// Whether `s` holds `pat` somewhere.
pub open spec fn has_text(s: Seq<char>, pat: Seq<char>) -> bool {
    exists|i: int| occurs_at(s, pat, i)
}

/// The error for a PDF that could not be loaded, from the loader's message:
/// a password or encryption complaint makes it an encrypted document, and
/// anything else a corrupted one.
pub fn load_failure(msg: &str) -> (e: PdfCliError)
    ensures
        (has_text(lowercase(msg@), "password"@) || has_text(lowercase(msg@), "encrypted"@))
            ==> (e matches PdfCliError::EncryptedPdf(m) && m@ == "文档受密码保护: "@ + msg@),
        !(has_text(lowercase(msg@), "password"@) || has_text(lowercase(msg@), "encrypted"@))
            ==> (e matches PdfCliError::CorruptedDocument(m) && m@ == "无法加载 PDF 文档: "@ + msg@),
{
    let low = str_chars(to_lowercase(msg).as_str());
    if contains_chars(low.as_slice(), str_chars("password").as_slice())
        || contains_chars(low.as_slice(), str_chars("encrypted").as_slice()) {
        let mut m = "文档受密码保护: ".to_owned();
        push_str(&mut m, msg);
        PdfCliError::EncryptedPdf(m)
    } else {
        let mut m = "无法加载 PDF 文档: ".to_owned();
        push_str(&mut m, msg);
        PdfCliError::CorruptedDocument(m)
    }
}

} // verus!
