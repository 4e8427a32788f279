//! Documents: a JSON value stored under an identifier, with the times it
//! was created and last updated.
use vstd::prelude::*;
use crate::json::JsonValue;
use crate::json::JsonView;
use crate::clock::{now_secs, new_document_id, is_hyphenated_uuid, is_uuid_v4_text};

verus! {

/// A document in the database.
#[derive(Debug)]
pub struct Document {
    /// Unique identifier of the document.
    pub id: String,
    /// The document's data.
    pub data: JsonValue,
    /// Creation time, in seconds since the Unix epoch.
    pub created_at: u64,
    /// Last update time, in seconds since the Unix epoch.
    pub updated_at: u64,
}

/// What a document holds.
pub struct DocumentView {
    pub id: Seq<char>,
    pub data: JsonView,
    pub created_at: u64,
    pub updated_at: u64,
}

impl View for Document {
    type V = DocumentView;

    open spec fn view(&self) -> DocumentView {
        DocumentView { id: self.id@, data: self.data@, created_at: self.created_at, updated_at: self.updated_at }
    }
}

/// The views of a list of documents.
pub open spec fn document_views(s: Seq<Document>) -> Seq<DocumentView> {
    s.map_values(|d: Document| d@)
}

impl Document {
    /// A new document holding `data`, with a fresh random (version 4 UUID)
    /// identifier and the current time as its creation and update time.
    pub fn new(data: JsonValue) -> (r: Document)
        ensures
            is_hyphenated_uuid(r.id@),
            is_uuid_v4_text(r.id@),
            r.data@ == data@,
            r.created_at == r.updated_at,
    {
        let now = now_secs();
        Document { id: new_document_id(), data, created_at: now, updated_at: now }
    }

    /// A new document holding `data` under the identifier `id`, with the
    /// current time as its creation and update time.
    pub fn with_id(id: String, data: JsonValue) -> (r: Document)
        ensures
            r.id@ == id@,
            r.data@ == data@,
            r.created_at == r.updated_at,
    {
        let now = now_secs();
        Document { id, data, created_at: now, updated_at: now }
    }

    /// Replaces the document's data and sets its update time to the
    /// current time (the clock's reading, see [`Document::update_at`]).
    pub fn update(&mut self, data: JsonValue)
        ensures
            final(self).id == old(self).id,
            final(self).data@ == data@,
            final(self).created_at == old(self).created_at,
    {
        self.update_at(data, now_secs());
    }

    /// Replaces the document's data and records `now` as its update time;
    /// the identifier and the creation time stay.
    pub fn update_at(&mut self, data: JsonValue, now: u64)
        ensures
            final(self).id == old(self).id,
            final(self).data@ == data@,
            final(self).created_at == old(self).created_at,
            final(self).updated_at == now,
    {
        self.data = data;
        self.updated_at = now;
    }

    /// A copy of this document.
    pub fn duplicate(&self) -> (r: Document)
        ensures
            r@ == self@,
    {
        Document {
            id: self.id.clone(),
            data: self.data.duplicate(),
            created_at: self.created_at,
            updated_at: self.updated_at,
        }
    }
}

} // verus!
