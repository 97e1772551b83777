use vstd::prelude::*;

verus! {

/// The body of an error reply: `status` is always `"error"`.
pub struct ErrorResponse {
    pub status: String,
    pub error_type: String,
    pub message: String,
}

/// Errors of the document tools, each with a human-readable message.
pub enum WordCliError {
    FileNotFound(String),
    CorruptedDocument(String),
    XmlParseError(String),
    NotFound(String),
    InvalidParameter(String),
    ExecutionError(String),
    IoError(String),
}

/// The `error_type` name that each variant reports.
pub open spec fn word_error_type(e: WordCliError) -> Seq<char> {
    match e {
        WordCliError::FileNotFound(_) => "FileNotFound"@,
        WordCliError::CorruptedDocument(_) => "CorruptedDocument"@,
        WordCliError::XmlParseError(_) => "XmlParseError"@,
        WordCliError::NotFound(_) => "NotFound"@,
        WordCliError::InvalidParameter(_) => "InvalidParameter"@,
        WordCliError::ExecutionError(_) => "ExecutionError"@,
        WordCliError::IoError(_) => "IoError"@,
    }
}

pub open spec fn word_error_message(e: WordCliError) -> Seq<char> {
    match e {
        WordCliError::FileNotFound(m) => m@,
        WordCliError::CorruptedDocument(m) => m@,
        WordCliError::XmlParseError(m) => m@,
        WordCliError::NotFound(m) => m@,
        WordCliError::InvalidParameter(m) => m@,
        WordCliError::ExecutionError(m) => m@,
        WordCliError::IoError(m) => m@,
    }
}

impl WordCliError {
    pub fn file_not_found(msg: String) -> (e: Self)
        ensures
            e == WordCliError::FileNotFound(msg),
    {
        WordCliError::FileNotFound(msg)
    }

    pub fn corrupted_document(msg: String) -> (e: Self)
        ensures
            e == WordCliError::CorruptedDocument(msg),
    {
        WordCliError::CorruptedDocument(msg)
    }

    pub fn xml_parse(msg: String) -> (e: Self)
        ensures
            e == WordCliError::XmlParseError(msg),
    {
        WordCliError::XmlParseError(msg)
    }

    pub fn not_found(msg: String) -> (e: Self)
        ensures
            e == WordCliError::NotFound(msg),
    {
        WordCliError::NotFound(msg)
    }

    pub fn invalid_parameter(msg: String) -> (e: Self)
        ensures
            e == WordCliError::InvalidParameter(msg),
    {
        WordCliError::InvalidParameter(msg)
    }

    pub fn execution_error(msg: String) -> (e: Self)
        ensures
            e == WordCliError::ExecutionError(msg),
    {
        WordCliError::ExecutionError(msg)
    }

    /// An I/O failure described by `msg`.
    pub fn file_io(msg: String) -> (e: Self)
        ensures
            e == WordCliError::IoError(msg),
    {
        WordCliError::IoError(msg)
    }

    /// The reply body for this error.
    pub fn to_error_response(&self) -> (r: ErrorResponse)
        ensures
            r.status@ == "error"@,
            r.error_type@ == word_error_type(*self),
            r.message@ == word_error_message(*self),
    {
        let (t, m) = match self {
            WordCliError::FileNotFound(m) => ("FileNotFound", m.clone()),
            WordCliError::CorruptedDocument(m) => ("CorruptedDocument", m.clone()),
            WordCliError::XmlParseError(m) => ("XmlParseError", m.clone()),
            WordCliError::NotFound(m) => ("NotFound", m.clone()),
            WordCliError::InvalidParameter(m) => ("InvalidParameter", m.clone()),
            WordCliError::ExecutionError(m) => ("ExecutionError", m.clone()),
            WordCliError::IoError(m) => ("IoError", m.clone()),
        };
        ErrorResponse { status: "error".to_owned(), error_type: t.to_owned(), message: m }
    }
}

} // verus!
