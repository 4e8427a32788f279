//! Layout of the on-disk store: where collections and documents live, which
//! files of a collection directory hold documents, and the storage errors.
//! The file system work itself is done by the application around the
//! library.
use vstd::prelude::*;
use vstd::string::*;
use crate::text::{path_join, spec_path_join, chars_of};

verus! {

/// Error type for storage operations.
#[derive(Debug)]
pub enum StorageError {
    IoError { message: String },
    SerializationError { message: String },
    DeserializationError { message: String },
    CollectionNotFound { name: String },
    CollectionExists { name: String },
    DocumentNotFound { id: String },
}

/// The text shown for a storage error.
pub open spec fn spec_storage_error_message(e: StorageError) -> Seq<char> {
    match e {
        StorageError::IoError { message } => "IO error: "@ + message@,
        StorageError::SerializationError { message } => "Serialization error: "@ + message@,
        StorageError::DeserializationError { message } => "Deserialization error: "@ + message@,
        StorageError::CollectionNotFound { name } => "Collection not found: "@ + name@,
        StorageError::CollectionExists { name } => "Collection already exists: "@ + name@,
        StorageError::DocumentNotFound { id } => "Document not found: "@ + id@,
    }
}

impl StorageError {
    /// The error's message (see [`spec_storage_error_message`]).
    pub fn message(&self) -> (r: String)
        ensures
            r@ == spec_storage_error_message(*self),
    {
        match self {
            StorageError::IoError { message } => String::from_str("IO error: ").concat(message.as_str()),
            StorageError::SerializationError { message } => String::from_str("Serialization error: ").concat(
                message.as_str(),
            ),
            StorageError::DeserializationError { message } => String::from_str("Deserialization error: ").concat(
                message.as_str(),
            ),
            StorageError::CollectionNotFound { name } => String::from_str("Collection not found: ").concat(name.as_str()),
            StorageError::CollectionExists { name } => String::from_str("Collection already exists: ").concat(
                name.as_str(),
            ),
            StorageError::DocumentNotFound { id } => String::from_str("Document not found: ").concat(id.as_str()),
        }
    }
}

/// The storage engine's layout: every path it uses is derived from its base
/// directory.
pub struct StorageEngine {
    pub base_dir: String,
}

/// `<base>/collections`
pub open spec fn spec_collections_dir(base: Seq<char>) -> Seq<char> {
    spec_path_join(base, "collections"@)
}

/// `<base>/collections/<name>`
pub open spec fn spec_collection_path(base: Seq<char>, name: Seq<char>) -> Seq<char> {
    spec_path_join(spec_collections_dir(base), name)
}

/// `<base>/collections/<name>/<id>.bin`
pub open spec fn spec_document_path(base: Seq<char>, name: Seq<char>, id: Seq<char>) -> Seq<char> {
    spec_path_join(spec_collection_path(base, name), id + ".bin"@)
}

/// `<base>/collections/<name>/metadata.bin`
pub open spec fn spec_metadata_path(base: Seq<char>, name: Seq<char>) -> Seq<char> {
    spec_path_join(spec_collection_path(base, name), "metadata.bin"@)
}

/// The extension of a file name as `Path::extension` gives it: what follows
/// the last dot, when there is a dot that is not the first character.
pub open spec fn spec_extension(name: Seq<char>) -> Option<Seq<char>> {
    if exists|i: int| 0 < i < name.len() && name[i] == '.' {
        let i = choose|i: int|
            0 < i < name.len() && name[i] == '.' && (forall|j: int| i < j < name.len() ==> name[j] != '.');
        Some(name.subrange(i + 1, name.len() as int))
    } else {
        None
    }
}

/// Whether a file of a collection directory holds a document: its extension
/// is `bin` and it is not the collection's metadata file.
pub open spec fn spec_is_document_file(name: Seq<char>) -> bool {
    spec_extension(name) == Some("bin"@) && name != "metadata.bin"@
}

impl StorageEngine {
    /// File holding the metadata of the collection `collection_name`.
    pub fn metadata_path(&self, collection_name: &str) -> (r: String)
        ensures
            r@ == spec_metadata_path(self.base_dir@, collection_name@),
    {
        let dir = self.collection_path(collection_name);
        path_join(dir.as_str(), "metadata.bin")
    }

    /// Whether the file `file_name` of a collection directory holds a
    /// document (see [`spec_is_document_file`]).
    pub fn is_document_file(file_name: &str) -> (r: bool)
        ensures
            r == spec_is_document_file(file_name@),
    {
        let cs = chars_of(file_name);
        let n = cs.len();
        let mut i = n;
        while i > 0 && cs[i - 1] != '.'
            invariant
                i <= n,
                n == file_name@.len(),
                cs@ == file_name@,
                forall|j: int| i <= j < n ==> file_name@[j] != '.',
            decreases i,
        {
            i = i - 1;
        }
        // the last dot, if any, is at i - 1
        if i <= 1 {
            proof {
                if exists|k: int| 0 < k < file_name@.len() && file_name@[k] == '.' {
                    let k = choose|k: int| 0 < k < file_name@.len() && file_name@[k] == '.';
                    assert(k < i);
                }
            }
            return false;
        }
        let dot = i - 1;
        proof {
            let k = choose|k: int|
                0 < k < file_name@.len() && file_name@[k] == '.' && (forall|j: int| k < j < file_name@.len() ==> file_name@[j] != '.');
            assert(file_name@[dot as int] == '.');
            if k < dot {
                assert(false);
            }
            if k > dot {
                assert(file_name@[k] != '.');
            }
        }
        let ext = String::from_str(file_name.substring_char(i, n));
        let bin = String::from_str("bin");
        let meta = String::from_str("metadata.bin");
        let whole = String::from_str(file_name);
        ext == bin && !(whole == meta)
    }

    /// A storage engine rooted at `base_dir`.
    pub fn new(base_dir: String) -> (r: StorageEngine)
        ensures
            r.base_dir@ == base_dir@,
    {
        StorageEngine { base_dir }
    }

    /// Directory that holds one directory per collection.
    pub fn collections_dir(&self) -> (r: String)
        ensures
            r@ == spec_collections_dir(self.base_dir@),
    {
        path_join(self.base_dir.as_str(), "collections")
    }

    /// Directory of the collection `collection_name`.
    pub fn collection_path(&self, collection_name: &str) -> (r: String)
        ensures
            r@ == spec_collection_path(self.base_dir@, collection_name@),
    {
        let dir = self.collections_dir();
        path_join(dir.as_str(), collection_name)
    }

    /// File of the document `document_id` in the collection `collection_name`.
    pub fn document_path(&self, collection_name: &str, document_id: &str) -> (r: String)
        ensures
            r@ == spec_document_path(self.base_dir@, collection_name@, document_id@),
    {
        let dir = self.collection_path(collection_name);
        let file = String::from_str(document_id).concat(".bin");
        path_join(dir.as_str(), file.as_str())
    }
}

} // verus!
