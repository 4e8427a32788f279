use zachdb::api::{error_status, query_from_request, success_status, Endpoint, QueryConditionRequest, QueryRequest};
use zachdb::database::Database;
use zachdb::document::Document;
use zachdb::errors::{DbError, IndexError};
use zachdb::json::{json_eq, JsonNumber, JsonValue};
use zachdb::query::{Query, QueryCondition, QueryOperator};

fn s(text: &str) -> JsonValue {
    JsonValue::Str(text.to_string())
}

fn num(n: i64) -> JsonValue {
    JsonValue::Number(JsonNumber::from_i64(n))
}

fn float(x: f64) -> JsonValue {
    JsonValue::Number(JsonNumber::from_f64_bits(x.to_bits()).unwrap())
}

fn obj(entries: Vec<(&str, JsonValue)>) -> JsonValue {
    JsonValue::Object(entries.into_iter().map(|(k, v)| (k.to_string(), v)).collect())
}

fn field<'a>(doc: &'a Document, name: &str) -> &'a JsonValue {
    doc.data.get(name).expect("field present")
}

fn number_of(v: &JsonValue) -> f64 {
    let n = v.as_number().expect("a number");
    match n.kind() {
        zachdb::json::NumberRepr::PosInt(u) => u as f64,
        zachdb::json::NumberRepr::NegInt(i) => i as f64,
        zachdb::json::NumberRepr::Float(b) => f64::from_bits(b),
    }
}

fn create_test_documents(count: usize) -> Vec<Document> {
    let mut documents = Vec::with_capacity(count);
    for i in 0..count {
        let doc = Document::new(obj(vec![
            ("id", num(i as i64)),
            ("name", s(&format!("Test {}", i))),
            ("active", JsonValue::Bool(i % 2 == 0)),
            ("score", float(i as f64 * 1.5)),
            (
                "tags",
                JsonValue::Array(vec![s(&format!("tag{}", i)), s(&format!("category{}", i % 3))]),
            ),
        ]));
        documents.push(doc);
    }
    documents
}

fn setup_test_collection(db: &mut Database, collection_name: &str, doc_count: usize) -> Vec<Document> {
    db.create_collection(collection_name).expect("Failed to create test collection");
    let documents = create_test_documents(doc_count);
    for doc in &documents {
        db.insert_document(collection_name, doc.duplicate(), Ok(())).expect("Failed to insert test document");
    }
    documents
}

fn create_test_db() -> Database {
    Database::new("test-db".to_string())
}

fn scan(db: &Database, collection: &str, query: Query) -> Vec<Document> {
    db.query_documents(collection, query, Ok(Vec::new())).expect("Failed to query documents")
}

#[test]
fn test_core_test_create_collection() {
    let mut db = create_test_db();
    let collection_name = "test_collection";
    let collection = db.create_collection(collection_name).expect("Failed to create collection");
    assert_eq!(collection.name(), collection_name);
    assert_eq!(collection.count(), 0);
    let collections = db.list_collections();
    assert!(collections.contains(&collection_name.to_string()));
}

#[test]
fn test_delete_collection() {
    let mut db = create_test_db();
    let collection_name = "test_collection";
    db.create_collection(collection_name).expect("Failed to create collection");
    db.delete_collection(collection_name).expect("Failed to delete collection");
    let collections = db.list_collections();
    assert!(!collections.contains(&collection_name.to_string()));
    assert!(db.get_collection(collection_name).is_err());
}

#[test]
fn test_insert_document() {
    let mut db = create_test_db();
    let collection_name = "test_collection";
    db.create_collection(collection_name).expect("Failed to create collection");
    let data = obj(vec![
        ("name", s("Test Document")),
        ("value", num(42)),
        ("tags", JsonValue::Array(vec![s("test"), s("example")])),
    ]);
    let document = Document::new(data.duplicate());
    let doc_id = document.id.clone();
    db.insert_document(collection_name, document.duplicate(), Ok(())).expect("Failed to insert document");
    let retrieved = db.get_document(collection_name, &doc_id).expect("Failed to get document");
    assert_eq!(retrieved.id, doc_id);
    assert!(json_eq(&retrieved.data, &data));
    let collection = db.get_collection(collection_name).expect("Failed to get collection");
    assert_eq!(collection.count(), 1);
}

#[test]
fn test_core_test_update_document() {
    let mut db = create_test_db();
    let collection_name = "test_collection";
    db.create_collection(collection_name).expect("Failed to create collection");
    let data = obj(vec![("name", s("Original Name")), ("value", num(42))]);
    let document = Document::new(data);
    let doc_id = document.id.clone();
    db.insert_document(collection_name, document, Ok(())).expect("Failed to insert document");
    let updated_data = obj(vec![
        ("name", s("Updated Name")),
        ("value", num(100)),
        ("new_field", s("New Value")),
    ]);
    let updated = db
        .update_document(collection_name, &doc_id, updated_data.duplicate(), Ok(()))
        .expect("Failed to update document");
    assert_eq!(updated.id, doc_id);
    assert!(json_eq(&updated.data, &updated_data));
    let retrieved = db.get_document(collection_name, &doc_id).expect("Failed to get document");
    assert_eq!(retrieved.id, doc_id);
    assert!(json_eq(&retrieved.data, &updated_data));
}

#[test]
fn test_core_test_delete_document() {
    let mut db = create_test_db();
    let collection_name = "test_collection";
    db.create_collection(collection_name).expect("Failed to create collection");
    let document = Document::new(obj(vec![("name", s("Test Document"))]));
    let doc_id = document.id.clone();
    db.insert_document(collection_name, document, Ok(())).expect("Failed to insert document");
    let deleted = db.delete_document(collection_name, &doc_id, Ok(())).expect("Failed to delete document");
    assert_eq!(deleted.id, doc_id);
    assert!(db.get_document(collection_name, &doc_id).is_err());
    let collection = db.get_collection(collection_name).expect("Failed to get collection");
    assert_eq!(collection.count(), 0);
}

#[test]
fn test_core_test_query_documents() {
    let mut db = create_test_db();
    let collection_name = "test_collection";
    let _documents = setup_test_collection(&mut db, collection_name, 20);

    let eq_query = Query {
        conditions: vec![QueryCondition {
            field: "active".to_string(),
            operator: QueryOperator::Eq,
            value: JsonValue::Bool(true),
        }],
        limit: None,
        skip: None,
        sort_by: None,
    };
    let results = scan(&db, collection_name, eq_query);
    assert_eq!(results.len(), 10);
    for doc in &results {
        assert!(json_eq(field(doc, "active"), &JsonValue::Bool(true)));
    }

    let gt_query = Query {
        conditions: vec![QueryCondition {
            field: "score".to_string(),
            operator: QueryOperator::Gt,
            value: float(15.0),
        }],
        limit: None,
        skip: None,
        sort_by: None,
    };
    let results = scan(&db, collection_name, gt_query);
    assert!(!results.is_empty());
    for doc in &results {
        assert!(number_of(field(doc, "score")) > 15.0);
    }

    let combined_query = Query {
        conditions: vec![
            QueryCondition {
                field: "active".to_string(),
                operator: QueryOperator::Eq,
                value: JsonValue::Bool(true),
            },
            QueryCondition {
                field: "score".to_string(),
                operator: QueryOperator::Gt,
                value: float(5.0),
            },
        ],
        limit: Some(5),
        skip: None,
        sort_by: Some(("score".to_string(), false)),
    };
    let results = scan(&db, collection_name, combined_query);
    assert!(results.len() <= 5);
    let mut last_score = f64::MAX;
    for doc in &results {
        assert!(json_eq(field(doc, "active"), &JsonValue::Bool(true)));
        assert!(number_of(field(doc, "score")) > 5.0);
        let score = number_of(field(doc, "score"));
        assert!(score <= last_score);
        last_score = score;
    }
}

#[test]
fn create_existing_collection_is_refused() {
    let mut db = create_test_db();
    db.create_collection("c").unwrap();
    match db.create_collection("c") {
        Err(DbError::CollectionExists(name)) => assert_eq!(name, "c"),
        _ => panic!("expected CollectionExists"),
    }
    assert_eq!(db.list_collections().len(), 1);
}

#[test]
fn missing_collection_is_reported() {
    let mut db = create_test_db();
    let doc = Document::new(obj(vec![("a", num(1))]));
    match db.insert_document("nowhere", doc, Ok(())) {
        Err(DbError::CollectionNotFound(name)) => assert_eq!(name, "nowhere"),
        _ => panic!("expected CollectionNotFound"),
    }
    assert!(matches!(db.get_document("nowhere", "x"), Err(DbError::CollectionNotFound(_))));
    assert!(matches!(db.get_all_documents("nowhere"), Err(DbError::CollectionNotFound(_))));
    assert!(matches!(db.delete_collection("nowhere"), Err(DbError::CollectionNotFound(_))));
    assert!(matches!(db.delete_document("nowhere", "x", Ok(())), Err(DbError::CollectionNotFound(_))));
    assert!(matches!(
        db.update_document("nowhere", "x", JsonValue::Null, Ok(())),
        Err(DbError::CollectionNotFound(_))
    ));
    let q = Query { conditions: vec![], limit: None, skip: None, sort_by: None };
    assert!(matches!(db.query_documents("nowhere", q, Ok(vec![])), Err(DbError::CollectionNotFound(_))));
}

#[test]
fn missing_document_is_reported() {
    let mut db = create_test_db();
    db.create_collection("c").unwrap();
    match db.get_document("c", "nope") {
        Err(DbError::DocumentNotFound(id)) => assert_eq!(id, "nope"),
        _ => panic!("expected DocumentNotFound"),
    }
    assert!(matches!(db.update_document("c", "nope", JsonValue::Null, Ok(())), Err(DbError::DocumentNotFound(_))));
    assert!(matches!(db.delete_document("c", "nope", Ok(())), Err(DbError::DocumentNotFound(_))));
}

#[test]
fn index_failure_stores_nothing() {
    let mut db = create_test_db();
    db.create_collection("c").unwrap();
    let doc = Document::with_id("d1".to_string(), obj(vec![("a", num(1))]));
    let r = db.insert_document("c", doc, Err(IndexError::IndexingError("disk full".to_string())));
    match r {
        Err(DbError::IndexError(m)) => assert_eq!(m, "Failed to index document: disk full"),
        _ => panic!("expected an index error"),
    }
    assert_eq!(db.get_collection("c").unwrap().count(), 0);
}

#[test]
fn index_failure_on_update_and_delete_keeps_document() {
    let mut db = create_test_db();
    db.create_collection("c").unwrap();
    let doc = Document::with_id("d1".to_string(), obj(vec![("a", num(1))]));
    db.insert_document("c", doc, Ok(())).unwrap();
    let r = db.update_document("c", "d1", obj(vec![("a", num(2))]), Err(IndexError::SearchError("x".to_string())));
    assert!(matches!(r, Err(DbError::IndexError(_))));
    let r = db.delete_document("c", "d1", Err(IndexError::FieldError("y".to_string())));
    assert!(matches!(r, Err(DbError::IndexError(_))));
    let kept = db.get_document("c", "d1").unwrap();
    assert!(json_eq(&kept.data, &obj(vec![("a", num(1))])));
}

#[test]
fn query_index_failure_is_invalid_query() {
    let mut db = create_test_db();
    db.create_collection("c").unwrap();
    let q = Query { conditions: vec![], limit: None, skip: None, sort_by: None };
    match db.query_documents("c", q, Err(IndexError::SearchError("bad".to_string()))) {
        Err(DbError::InvalidQuery(m)) => assert_eq!(m, "Failed to search: bad"),
        _ => panic!("expected InvalidQuery"),
    }
}

#[test]
fn read_after_write_and_overwrite() {
    let mut db = create_test_db();
    db.create_collection("c").unwrap();
    db.create_collection("other").unwrap();
    db.insert_document("other", Document::with_id("k".to_string(), num(7)), Ok(())).unwrap();
    db.insert_document("c", Document::with_id("k".to_string(), num(1)), Ok(())).unwrap();
    db.insert_document("c", Document::with_id("k".to_string(), num(2)), Ok(())).unwrap();
    assert!(json_eq(&db.get_document("c", "k").unwrap().data, &num(2)));
    assert!(json_eq(&db.get_document("other", "k").unwrap().data, &num(7)));
    assert_eq!(db.get_collection("c").unwrap().count(), 1);
}

#[test]
fn delete_leaves_other_documents() {
    let mut db = create_test_db();
    db.create_collection("c").unwrap();
    db.insert_document("c", Document::with_id("a".to_string(), num(1)), Ok(())).unwrap();
    db.insert_document("c", Document::with_id("b".to_string(), num(2)), Ok(())).unwrap();
    let gone = db.delete_document("c", "a", Ok(())).unwrap();
    assert_eq!(gone.id, "a");
    assert!(db.get_document("c", "a").is_err());
    assert!(json_eq(&db.get_document("c", "b").unwrap().data, &num(2)));
    assert_eq!(db.get_all_documents("c").unwrap().len(), 1);
}

#[test]
fn update_keeps_creation_time() {
    let mut db = create_test_db();
    db.create_collection("c").unwrap();
    let mut doc = Document::with_id("a".to_string(), num(1));
    doc.created_at = 5;
    doc.updated_at = 5;
    db.insert_document("c", doc, Ok(())).unwrap();
    let updated = db.update_document("c", "a", num(3), Ok(())).unwrap();
    assert_eq!(updated.created_at, 5);
    assert!(updated.updated_at >= 5);
}

#[test]
fn query_with_index_ids_uses_named_documents() {
    let mut db = create_test_db();
    db.create_collection("c").unwrap();
    for (id, v) in [("a", 1), ("b", 2), ("c", 3)] {
        db.insert_document("c", Document::with_id(id.to_string(), obj(vec![("v", num(v))])), Ok(())).unwrap();
    }
    let q = Query { conditions: vec![], limit: None, skip: None, sort_by: None };
    let r = db.query_documents("c", q, Ok(vec!["c".to_string(), "zz".to_string(), "a".to_string()])).unwrap();
    let ids: Vec<&str> = r.iter().map(|d| d.id.as_str()).collect();
    assert_eq!(ids, vec!["c", "a"]);
}

#[test]
fn query_sorting_skip_and_limit() {
    let mut db = create_test_db();
    db.create_collection("c").unwrap();
    for (id, v) in [("a", 3), ("b", 1), ("c", 2), ("d", 5), ("e", 4)] {
        db.insert_document("c", Document::with_id(id.to_string(), obj(vec![("v", num(v))])), Ok(())).unwrap();
    }
    let q = Query { conditions: vec![], limit: Some(2), skip: Some(1), sort_by: Some(("v".to_string(), true)) };
    let r = scan(&db, "c", q);
    let ids: Vec<&str> = r.iter().map(|d| d.id.as_str()).collect();
    assert_eq!(ids, vec!["c", "a"]);
    let q = Query { conditions: vec![], limit: None, skip: Some(10), sort_by: None };
    assert!(scan(&db, "c", q).is_empty());
}

#[test]
fn shutdown_succeeds() {
    let db = create_test_db();
    assert_eq!(db.name(), "test-db");
    assert!(db.shutdown().is_ok());
}

#[test]
fn query_request_scenario() {
    let mut db = create_test_db();
    setup_test_collection(&mut db, "test_collection", 20);
    let request = QueryRequest {
        conditions: vec![
            QueryConditionRequest { field: "active".to_string(), operator: "eq".to_string(), value: JsonValue::Bool(true) },
            QueryConditionRequest { field: "score".to_string(), operator: "gt".to_string(), value: float(10.0) },
        ],
        limit: Some(5),
        skip: None,
        sort_by: Some("score".to_string()),
        sort_direction: Some("desc".to_string()),
    };
    let query = query_from_request(request).expect("a valid query");
    let results = db.query_documents("test_collection", query, Ok(Vec::new())).expect("query succeeds");
    assert_eq!(success_status(Endpoint::QueryDocuments), 200);
    assert!(results.len() <= 5);
    assert!(!results.is_empty());
    let mut last_score = f64::MAX;
    for doc in &results {
        assert!(json_eq(field(doc, "active"), &JsonValue::Bool(true)));
        let score = number_of(field(doc, "score"));
        assert!(score > 10.0);
        assert!(score <= last_score);
        last_score = score;
    }
}

#[test]
fn error_handling_scenario() {
    let mut db = create_test_db();
    setup_test_collection(&mut db, "test_collection", 1);
    let e = db.get_all_documents("nonexistent").unwrap_err();
    assert_eq!(error_status(Endpoint::GetAllDocuments, &e), 404);
    let e = db.get_document("test_collection", "nonexistent").unwrap_err();
    assert_eq!(error_status(Endpoint::GetDocument, &e), 404);
    let bad = QueryRequest {
        conditions: vec![QueryConditionRequest {
            field: "active".to_string(),
            operator: "invalid".to_string(),
            value: JsonValue::Bool(true),
        }],
        limit: None,
        skip: None,
        sort_by: None,
        sort_direction: None,
    };
    assert!(query_from_request(bad).is_err());
}
