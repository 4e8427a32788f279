//! Error types of the database and of its indexes, with the messages they
//! are shown with.
use vstd::prelude::*;
use vstd::string::*;

verus! {

/// Database error types.
#[derive(Debug)]
pub enum DbError {
    /// The collection does not exist.
    CollectionNotFound(String),
    /// The document does not exist.
    DocumentNotFound(String),
    /// A collection of that name already exists.
    CollectionExists(String),
    /// A storage operation failed.
    Storage(String),
    /// An IO operation failed.
    Io(String),
    /// The data is invalid.
    InvalidData(String),
    /// The query is invalid.
    InvalidQuery(String),
    /// An index operation failed.
    IndexError(String),
}

/// Database operation result type.
pub type DbResult<T> = Result<T, DbError>;

/// The text shown for a database error: a fixed prefix naming the kind of
/// failure, followed by the error's detail.
pub open spec fn spec_db_error_message(e: DbError) -> Seq<char> {
    match e {
        DbError::CollectionNotFound(s) => "Collection not found: "@ + s@,
        DbError::DocumentNotFound(s) => "Document not found: "@ + s@,
        DbError::CollectionExists(s) => "Collection already exists: "@ + s@,
        DbError::Storage(s) => "Storage error: "@ + s@,
        DbError::Io(s) => "IO error: "@ + s@,
        DbError::InvalidData(s) => "Invalid data: "@ + s@,
        DbError::InvalidQuery(s) => "Invalid query: "@ + s@,
        DbError::IndexError(s) => "Indexing error: "@ + s@,
    }
}

impl DbError {
    /// The error's message (see [`spec_db_error_message`]).
    pub fn message(&self) -> (r: String)
        ensures
            r@ == spec_db_error_message(*self),
    {
        match self {
            DbError::CollectionNotFound(s) => String::from_str("Collection not found: ").concat(s.as_str()),
            DbError::DocumentNotFound(s) => String::from_str("Document not found: ").concat(s.as_str()),
            DbError::CollectionExists(s) => String::from_str("Collection already exists: ").concat(s.as_str()),
            DbError::Storage(s) => String::from_str("Storage error: ").concat(s.as_str()),
            DbError::Io(s) => String::from_str("IO error: ").concat(s.as_str()),
            DbError::InvalidData(s) => String::from_str("Invalid data: ").concat(s.as_str()),
            DbError::InvalidQuery(s) => String::from_str("Invalid query: ").concat(s.as_str()),
            DbError::IndexError(s) => String::from_str("Indexing error: ").concat(s.as_str()),
        }
    }
}

/// Index error type.
#[derive(Debug)]
pub enum IndexError {
    CreateError(String),
    IndexingError(String),
    SearchError(String),
    FieldError(String),
    IoError(String),
    TantivyError(String),
}

/// The text shown for an index error.
pub open spec fn spec_index_error_message(e: IndexError) -> Seq<char> {
    match e {
        IndexError::CreateError(s) => "Failed to create index: "@ + s@,
        IndexError::IndexingError(s) => "Failed to index document: "@ + s@,
        IndexError::SearchError(s) => "Failed to search: "@ + s@,
        IndexError::FieldError(s) => "Failed to add field to index: "@ + s@,
        IndexError::IoError(s) => "Failed to open index directory: "@ + s@,
        IndexError::TantivyError(s) => "Failed to create tantivy index: "@ + s@,
    }
}

impl IndexError {
    /// The error's message (see [`spec_index_error_message`]).
    pub fn message(&self) -> (r: String)
        ensures
            r@ == spec_index_error_message(*self),
    {
        match self {
            IndexError::CreateError(s) => String::from_str("Failed to create index: ").concat(s.as_str()),
            IndexError::IndexingError(s) => String::from_str("Failed to index document: ").concat(s.as_str()),
            IndexError::SearchError(s) => String::from_str("Failed to search: ").concat(s.as_str()),
            IndexError::FieldError(s) => String::from_str("Failed to add field to index: ").concat(s.as_str()),
            IndexError::IoError(s) => String::from_str("Failed to open index directory: ").concat(s.as_str()),
            IndexError::TantivyError(s) => String::from_str("Failed to create tantivy index: ").concat(s.as_str()),
        }
    }
}

} // verus!
