use zachdb::api::{
    collection_summaries, request_error_status, server_info, error_message, error_status, parse_operator, query_from_request, success_status, ApiResponse, Endpoint,
    QueryConditionRequest, QueryRequest,
};
use zachdb::clock::{new_document_id, now_secs};
use zachdb::collection::Collection;
use zachdb::config::Config;
use zachdb::document::Document;
use zachdb::errors::{DbError, IndexError};
use zachdb::index::{exact_key, lookup_for, search_answer, top_level_field, ExactKey, IndexLookup, IndexManager};
use zachdb::json::{json_eq, JsonNumber, JsonValue, NumberRepr};
use zachdb::number::double_bits_of_u64;
use zachdb::query::{
    compare_documents, compare_json_values, extract_value_from_path, matches_condition, matches_query,
    page_documents, sort_documents, Order, Query, QueryCondition, QueryOperator,
};
use zachdb::storage::{StorageEngine, StorageError};
use zachdb::database::Database;
use zachdb::text::{chars_of, compare_text, contains_text, path_join, split_text};

fn s(text: &str) -> JsonValue {
    JsonValue::Str(text.to_string())
}

fn num(n: i64) -> JsonValue {
    JsonValue::Number(JsonNumber::from_i64(n))
}

fn float(x: f64) -> JsonValue {
    JsonValue::Number(JsonNumber::from_f64_bits(x.to_bits()).unwrap())
}

fn obj(entries: Vec<(&str, JsonValue)>) -> JsonValue {
    JsonValue::Object(entries.into_iter().map(|(k, v)| (k.to_string(), v)).collect())
}

// ----- numbers -------------------------------------------------------------

#[test]
fn integer_to_double_bits() {
    assert_eq!(double_bits_of_u64(0), 0);
    assert_eq!(double_bits_of_u64(1), 0x3FF0000000000000);
    assert_eq!(double_bits_of_u64(2), 0x4000000000000000);
    assert_eq!(double_bits_of_u64(3), 0x4008000000000000);
    for n in [7u64, 1000, 123456789, (1 << 53) - 1, 1 << 53, (1 << 53) + 1, (1 << 53) + 3, u64::MAX, 1 << 63] {
        assert_eq!(double_bits_of_u64(n), (n as f64).to_bits(), "n = {}", n);
    }
}

#[test]
fn integer_rounding_ties_to_even() {
    assert_eq!(double_bits_of_u64((1 << 53) + 1), ((1u64 << 53) as f64).to_bits());
    assert_eq!(double_bits_of_u64((1 << 53) + 3), (((1u64 << 53) + 4) as f64).to_bits());
}

#[test]
fn non_finite_doubles_are_not_json_numbers() {
    assert!(JsonNumber::from_f64_bits(f64::NAN.to_bits()).is_none());
    assert!(JsonNumber::from_f64_bits(f64::INFINITY.to_bits()).is_none());
    assert!(JsonNumber::from_f64_bits(f64::NEG_INFINITY.to_bits()).is_none());
    assert!(JsonNumber::from_f64_bits(1.5f64.to_bits()).is_some());
}

#[test]
fn number_kinds() {
    assert_eq!(JsonNumber::from_i64(5).kind(), NumberRepr::PosInt(5));
    assert_eq!(JsonNumber::from_i64(-5).kind(), NumberRepr::NegInt(-5));
    assert_eq!(JsonNumber::from_u64(9).kind(), NumberRepr::PosInt(9));
}

#[test]
fn number_equality_and_order() {
    let zero = JsonNumber::from_f64_bits(0.0f64.to_bits()).unwrap();
    let neg_zero = JsonNumber::from_f64_bits((-0.0f64).to_bits()).unwrap();
    assert!(zero.same_value(&neg_zero));
    assert!(!JsonNumber::from_i64(1).same_value(&JsonNumber::from_f64_bits(1.0f64.to_bits()).unwrap()));
    assert_eq!(compare_json_values(&num(1), &float(1.0)), Order::Equal);
    assert_eq!(compare_json_values(&num(-3), &float(-2.5)), Order::Less);
    assert_eq!(compare_json_values(&float(10.25), &num(10)), Order::Greater);
    let big = JsonValue::Number(JsonNumber::from_u64((1 << 53) + 1));
    assert_eq!(compare_json_values(&big, &float(9007199254740992.0)), Order::Equal);
}

// ----- JSON values ---------------------------------------------------------

#[test]
fn json_equality() {
    let a = obj(vec![("x", num(1)), ("y", s("a"))]);
    let b = obj(vec![("y", s("a")), ("x", num(1))]);
    assert!(json_eq(&a, &b));
    let c = obj(vec![("x", num(2)), ("y", s("a")), ("x", num(1))]);
    assert!(json_eq(&a, &c));
    assert!(!json_eq(&a, &obj(vec![("x", num(1))])));
    assert!(!json_eq(&num(1), &float(1.0)));
    assert!(json_eq(&JsonValue::Array(vec![num(1), s("b")]), &JsonValue::Array(vec![num(1), s("b")])));
    assert!(!json_eq(&JsonValue::Array(vec![num(1), s("b")]), &JsonValue::Array(vec![s("b"), num(1)])));
    assert!(json_eq(&JsonValue::Null, &JsonValue::Null));
}

#[test]
fn json_accessors() {
    let v = obj(vec![("k", num(1)), ("k", s("last")), ("b", JsonValue::Bool(true))]);
    assert_eq!(v.get("k").unwrap().as_str().unwrap(), "last");
    assert_eq!(v.get("b").unwrap().as_bool(), Some(true));
    assert!(v.get("missing").is_none());
    assert!(JsonValue::Null.is_null());
    assert!(!num(0).is_null());
    assert!(num(3).as_number().is_some());
    assert!(s("x").get("k").is_none());
    assert!(json_eq(&v.duplicate(), &v));
}

// ----- text ----------------------------------------------------------------

#[test]
fn path_joining() {
    assert_eq!(path_join("a", "b"), "a/b");
    assert_eq!(path_join("a/", "b"), "a/b");
    assert_eq!(path_join("", "b"), "b");
    assert_eq!(path_join("a", "/abs"), "/abs");
}

#[test]
fn text_splitting_and_search() {
    assert_eq!(split_text("a.b.c", '.'), vec!["a", "b", "c"]);
    assert_eq!(split_text("abc", '.'), vec!["abc"]);
    assert_eq!(split_text("", '.'), vec![""]);
    assert_eq!(split_text(".a.", '.'), vec!["", "a", ""]);
    assert!(contains_text(&chars_of("hello world"), &chars_of("o w")));
    assert!(contains_text(&chars_of("hello"), &chars_of("")));
    assert!(!contains_text(&chars_of("hello"), &chars_of("hex")));
    assert_eq!(compare_text(&chars_of("abc"), &chars_of("abd")), -1);
    assert_eq!(compare_text(&chars_of("ab"), &chars_of("abc")), -1);
    assert_eq!(compare_text(&chars_of("b"), &chars_of("abc")), 1);
    assert_eq!(compare_text(&chars_of("same"), &chars_of("same")), 0);
}

// ----- queries -------------------------------------------------------------

#[test]
fn extracting_nested_values() {
    let data = obj(vec![("user", obj(vec![("address", obj(vec![("city", s("Paris"))]))])), ("n", num(1))]);
    assert!(json_eq(extract_value_from_path(&data, "user.address.city").unwrap(), &s("Paris")));
    assert!(extract_value_from_path(&data, "user.phone").is_none());
    assert!(extract_value_from_path(&data, "n.deeper").is_none());
    assert!(json_eq(extract_value_from_path(&data, "n").unwrap(), &num(1)));
}

#[test]
fn condition_operators() {
    assert!(matches_condition(Some(&num(3)), QueryOperator::Eq, &num(3)));
    assert!(!matches_condition(Some(&num(3)), QueryOperator::Eq, &float(3.0)));
    assert!(matches_condition(Some(&num(3)), QueryOperator::Ne, &num(4)));
    assert!(matches_condition(Some(&num(5)), QueryOperator::Gt, &float(4.5)));
    assert!(!matches_condition(Some(&num(4)), QueryOperator::Gt, &num(4)));
    assert!(matches_condition(Some(&num(4)), QueryOperator::Gte, &num(4)));
    assert!(matches_condition(Some(&s("apple")), QueryOperator::Lt, &s("banana")));
    assert!(matches_condition(Some(&s("b")), QueryOperator::Lte, &s("b")));
    assert!(!matches_condition(Some(&s("b")), QueryOperator::Lt, &num(1)));
    assert!(matches_condition(Some(&s("hello world")), QueryOperator::Contains, &s("lo w")));
    assert!(!matches_condition(Some(&num(1)), QueryOperator::Contains, &s("1")));
    assert!(matches_condition(Some(&num(0)), QueryOperator::Exists, &JsonValue::Null));
    assert!(matches_condition(Some(&JsonValue::Null), QueryOperator::Exists, &JsonValue::Null));
    assert!(!matches_condition(None, QueryOperator::Exists, &JsonValue::Bool(true)));
    assert!(matches_condition(None, QueryOperator::Eq, &JsonValue::Null));
    assert!(!matches_condition(None, QueryOperator::Ne, &JsonValue::Null));
    assert!(matches_condition(Some(&s("b")), QueryOperator::In, &JsonValue::Array(vec![s("a"), s("b")])));
    assert!(!matches_condition(Some(&s("c")), QueryOperator::In, &JsonValue::Array(vec![s("a"), s("b")])));
    assert!(!matches_condition(Some(&s("a")), QueryOperator::In, &s("a")));
}

#[test]
fn missing_field_matches_as_null() {
    let doc = Document::with_id("d".to_string(), obj(vec![("a", num(1))]));
    let exists = Query {
        conditions: vec![QueryCondition { field: "b".to_string(), operator: QueryOperator::Exists, value: JsonValue::Null }],
        limit: None,
        skip: None,
        sort_by: None,
    };
    assert!(!matches_query(&doc, &exists));
    let eq_null = Query {
        conditions: vec![QueryCondition { field: "b".to_string(), operator: QueryOperator::Eq, value: JsonValue::Null }],
        limit: None,
        skip: None,
        sort_by: None,
    };
    assert!(matches_query(&doc, &eq_null));
    let none = Query { conditions: vec![], limit: None, skip: None, sort_by: None };
    assert!(matches_query(&doc, &none));
}

fn doc_with(id: &str, v: Option<JsonValue>) -> Document {
    match v {
        Some(v) => Document::with_id(id.to_string(), obj(vec![("v", v)])),
        None => Document::with_id(id.to_string(), obj(vec![])),
    }
}

fn ids(docs: &[Document]) -> Vec<String> {
    docs.iter().map(|d| d.id.clone()).collect()
}

#[test]
fn comparing_documents() {
    let a = doc_with("a", Some(num(1)));
    let b = doc_with("b", Some(num(2)));
    let n = doc_with("n", None);
    assert_eq!(compare_documents(&a, &b, "v", true), Order::Less);
    assert_eq!(compare_documents(&a, &b, "v", false), Order::Greater);
    assert_eq!(compare_documents(&a, &n, "v", true), Order::Less);
    assert_eq!(compare_documents(&n, &a, "v", false), Order::Greater);
    assert_eq!(compare_documents(&n, &n, "v", true), Order::Equal);
    assert_eq!(compare_json_values(&s("x"), &num(1)), Order::Equal);
    assert_eq!(compare_json_values(&JsonValue::Bool(false), &JsonValue::Bool(true)), Order::Less);
}

#[test]
fn sorting_is_stable_and_missing_fields_go_last() {
    let docs = vec![
        doc_with("n1", None),
        doc_with("b", Some(num(2))),
        doc_with("a1", Some(num(1))),
        doc_with("x", Some(s("str"))),
        doc_with("a2", Some(num(1))),
        doc_with("n2", None),
    ];
    let sorted = sort_documents(docs, "v", true);
    // a string compares equal to numbers, so it stays between them in input order
    assert_eq!(ids(&sorted), vec!["a1", "b", "x", "a2", "n1", "n2"]);
    let docs = vec![doc_with("a", Some(num(1))), doc_with("c", Some(num(3))), doc_with("b", Some(num(2)))];
    assert_eq!(ids(&sort_documents(docs, "v", false)), vec!["c", "b", "a"]);
}

#[test]
fn paging() {
    let make = || vec![doc_with("a", None), doc_with("b", None), doc_with("c", None)];
    assert_eq!(ids(&page_documents(make(), Some(1), None)), vec!["b", "c"]);
    assert_eq!(ids(&page_documents(make(), None, Some(2))), vec!["a", "b"]);
    assert_eq!(ids(&page_documents(make(), Some(1), Some(1))), vec!["b"]);
    assert!(page_documents(make(), Some(3), None).is_empty());
    assert_eq!(ids(&page_documents(make(), None, Some(10))), vec!["a", "b", "c"]);
}

// ----- collections ---------------------------------------------------------

#[test]
fn collection_basics() {
    let mut c = Collection::new("people".to_string());
    assert_eq!(c.name(), "people");
    assert_eq!(c.count(), 0);
    assert_eq!(c.index_manager().collection_name, "people");
    c.insert(Document::with_id("p1".to_string(), obj(vec![("age", num(30))])), Ok(())).unwrap();
    c.insert(Document::with_id("p2".to_string(), obj(vec![("age", num(40))])), Ok(())).unwrap();
    assert_eq!(c.count(), 2);
    assert_eq!(c.get_all().len(), 2);
    let q = Query {
        conditions: vec![QueryCondition { field: "age".to_string(), operator: QueryOperator::Gte, value: num(35) }],
        limit: None,
        skip: None,
        sort_by: None,
    };
    let r = c.query(q, Ok(vec![])).unwrap();
    assert_eq!(ids(&r), vec!["p2"]);
    let q = Query { conditions: vec![], limit: None, skip: None, sort_by: Some(("age".to_string(), false)) };
    assert_eq!(ids(&c.query_results(&q, vec![])), vec!["p2", "p1"]);
    let gone = c.delete("p1", Ok(())).unwrap();
    assert_eq!(gone.id, "p1");
    assert!(matches!(c.get("p1"), Err(DbError::DocumentNotFound(_))));
    let u = c.update("p2", num(5), Ok(())).unwrap();
    assert!(json_eq(&u.data, &num(5)));
}

// ----- index planning ------------------------------------------------------

#[test]
fn index_directories() {
    let m = IndexManager::new("c".to_string());
    assert!(m.index_dir().is_none());
    let m = IndexManager::with_data_dir("c".to_string(), "/data/idx".to_string());
    assert_eq!(m.index_dir().unwrap(), "/data/idx/c");
}

#[test]
fn fields_to_index_are_sorted_keys() {
    let m = IndexManager::new("c".to_string());
    let d = Document::with_id("d".to_string(), obj(vec![("b", num(1)), ("a", num(2)), ("b", num(3))]));
    assert_eq!(m.fields_to_index(&d), vec!["a", "b"]);
    let d = Document::with_id("d".to_string(), num(1));
    assert!(m.fields_to_index(&d).is_empty());
}

#[test]
fn planning_searches() {
    let m = IndexManager::new("c".to_string());
    let q = Query {
        conditions: vec![
            QueryCondition { field: "user.name".to_string(), operator: QueryOperator::Eq, value: s("x") },
            QueryCondition { field: "age".to_string(), operator: QueryOperator::Gt, value: num(1) },
            QueryCondition { field: "title".to_string(), operator: QueryOperator::Contains, value: s("y") },
        ],
        limit: None,
        skip: None,
        sort_by: None,
    };
    let plan = m.plan_query(&q, &vec!["user".to_string(), "title".to_string()]);
    let got: Vec<(usize, String)> = plan.into_iter().map(|p| (p.condition, p.field)).collect();
    assert_eq!(got, vec![(0, "user".to_string()), (2, "title".to_string())]);
    assert_eq!(top_level_field("a.b.c"), "a");
    assert_eq!(top_level_field("plain"), "plain");
}

#[test]
fn combining_index_results() {
    let m = IndexManager::new("c".to_string());
    let v = |xs: &[&str]| xs.iter().map(|x| x.to_string()).collect::<Vec<String>>();
    let mut r = m.combine_results(vec![v(&["a", "b", "c", "a"]), v(&[]), v(&["c", "a", "z"])]);
    r.sort();
    assert_eq!(r, v(&["a", "c"]));
    assert!(m.combine_results(vec![v(&[]), v(&[])]).is_empty());
    assert!(m.combine_results(vec![]).is_empty());
    let mut r = m.combine_results(vec![v(&["b", "b", "a"])]);
    r.sort();
    assert_eq!(r, v(&["a", "b"]));
}

// ----- storage layout ------------------------------------------------------

#[test]
fn storage_paths() {
    let e = StorageEngine::new("/data".to_string());
    assert_eq!(e.collections_dir(), "/data/collections");
    assert_eq!(e.collection_path("users"), "/data/collections/users");
    assert_eq!(e.document_path("users", "42"), "/data/collections/users/42.bin");
    assert_eq!(e.metadata_path("users"), "/data/collections/users/metadata.bin");
}

#[test]
fn document_files() {
    assert!(StorageEngine::is_document_file("abc.bin"));
    assert!(StorageEngine::is_document_file("a.b.bin"));
    assert!(!StorageEngine::is_document_file("metadata.bin"));
    assert!(!StorageEngine::is_document_file(".bin"));
    assert!(!StorageEngine::is_document_file("abc.txt"));
    assert!(!StorageEngine::is_document_file("abc"));
    assert!(!StorageEngine::is_document_file("abc.bin.old"));
}

// ----- errors --------------------------------------------------------------

#[test]
fn error_messages() {
    assert_eq!(DbError::CollectionNotFound("c".to_string()).message(), "Collection not found: c");
    assert_eq!(DbError::DocumentNotFound("d".to_string()).message(), "Document not found: d");
    assert_eq!(DbError::CollectionExists("c".to_string()).message(), "Collection already exists: c");
    assert_eq!(DbError::Storage("s".to_string()).message(), "Storage error: s");
    assert_eq!(DbError::Io("i".to_string()).message(), "IO error: i");
    assert_eq!(DbError::InvalidData("x".to_string()).message(), "Invalid data: x");
    assert_eq!(DbError::InvalidQuery("q".to_string()).message(), "Invalid query: q");
    assert_eq!(DbError::IndexError("e".to_string()).message(), "Indexing error: e");
    assert_eq!(IndexError::CreateError("a".to_string()).message(), "Failed to create index: a");
    assert_eq!(IndexError::IndexingError("a".to_string()).message(), "Failed to index document: a");
    assert_eq!(IndexError::SearchError("a".to_string()).message(), "Failed to search: a");
    assert_eq!(IndexError::FieldError("a".to_string()).message(), "Failed to add field to index: a");
    assert_eq!(IndexError::IoError("a".to_string()).message(), "Failed to open index directory: a");
    assert_eq!(IndexError::TantivyError("a".to_string()).message(), "Failed to create tantivy index: a");
}

// ----- API decisions -------------------------------------------------------

#[test]
fn api_statuses() {
    assert_eq!(success_status(Endpoint::CreateCollection), 201);
    assert_eq!(success_status(Endpoint::CreateDocument), 201);
    assert_eq!(success_status(Endpoint::GetDocument), 200);
    assert_eq!(success_status(Endpoint::ServerInfo), 200);
    let exists = DbError::CollectionExists("c".to_string());
    let missing = DbError::CollectionNotFound("c".to_string());
    let no_doc = DbError::DocumentNotFound("d".to_string());
    assert_eq!(error_status(Endpoint::CreateCollection, &exists), 409);
    assert_eq!(error_status(Endpoint::CreateCollection, &missing), 500);
    assert_eq!(error_status(Endpoint::DeleteCollection, &missing), 404);
    assert_eq!(error_status(Endpoint::GetAllDocuments, &missing), 404);
    assert_eq!(error_status(Endpoint::GetDocument, &no_doc), 404);
    assert_eq!(error_status(Endpoint::DeleteDocument, &missing), 404);
    assert_eq!(error_status(Endpoint::UpdateDocument, &DbError::InvalidData("x".to_string())), 400);
    assert_eq!(error_status(Endpoint::QueryDocuments, &DbError::InvalidQuery("x".to_string())), 400);
    assert_eq!(error_status(Endpoint::QueryDocuments, &missing), 404);
    assert_eq!(error_status(Endpoint::CreateDocument, &missing), 500);
    assert_eq!(error_status(Endpoint::UpdateDocument, &DbError::Storage("x".to_string())), 500);
}

#[test]
fn api_error_messages() {
    let missing = DbError::CollectionNotFound("nonexistent".to_string());
    assert_eq!(
        error_message(Endpoint::CreateDocument, &missing),
        "Failed to create document: Collection not found: nonexistent"
    );
    assert_eq!(error_message(Endpoint::GetDocument, &missing), "Collection not found: nonexistent");
}

#[test]
fn api_responses() {
    let ok = ApiResponse::success(5u32);
    assert!(ok.success);
    assert_eq!(ok.data, Some(5));
    assert!(ok.error.is_none());
    let err: ApiResponse<u32> = ApiResponse::error("boom".to_string());
    assert!(!err.success);
    assert!(err.data.is_none());
    assert_eq!(err.error.as_deref(), Some("boom"));
}

#[test]
fn operator_names() {
    assert_eq!(parse_operator("eq"), Some(QueryOperator::Eq));
    assert_eq!(parse_operator("ne"), Some(QueryOperator::Ne));
    assert_eq!(parse_operator("gt"), Some(QueryOperator::Gt));
    assert_eq!(parse_operator("gte"), Some(QueryOperator::Gte));
    assert_eq!(parse_operator("lt"), Some(QueryOperator::Lt));
    assert_eq!(parse_operator("lte"), Some(QueryOperator::Lte));
    assert_eq!(parse_operator("contains"), Some(QueryOperator::Contains));
    assert_eq!(parse_operator("exists"), Some(QueryOperator::Exists));
    assert_eq!(parse_operator("in"), Some(QueryOperator::In));
    assert_eq!(parse_operator("EQ"), None);
    assert_eq!(parse_operator("like"), None);
}

fn cond(field: &str, op: &str, value: JsonValue) -> QueryConditionRequest {
    QueryConditionRequest { field: field.to_string(), operator: op.to_string(), value }
}

#[test]
fn query_requests() {
    let req = QueryRequest {
        conditions: vec![cond("active", "eq", JsonValue::Bool(true)), cond("score", "gt", num(10))],
        limit: Some(5),
        skip: Some(1),
        sort_by: Some("score".to_string()),
        sort_direction: Some("desc".to_string()),
    };
    let q = query_from_request(req).unwrap();
    assert_eq!(q.conditions.len(), 2);
    assert_eq!(q.conditions[0].field, "active");
    assert_eq!(q.conditions[0].operator, QueryOperator::Eq);
    assert_eq!(q.conditions[1].operator, QueryOperator::Gt);
    assert!(json_eq(&q.conditions[1].value, &num(10)));
    assert_eq!(q.limit, Some(5));
    assert_eq!(q.skip, Some(1));
    assert_eq!(q.sort_by, Some(("score".to_string(), false)));

    let asc = QueryRequest {
        conditions: vec![],
        limit: None,
        skip: None,
        sort_by: Some("name".to_string()),
        sort_direction: Some("asc".to_string()),
    };
    assert_eq!(query_from_request(asc).unwrap().sort_by, Some(("name".to_string(), true)));

    let no_direction = QueryRequest {
        conditions: vec![],
        limit: None,
        skip: None,
        sort_by: Some("name".to_string()),
        sort_direction: None,
    };
    assert_eq!(query_from_request(no_direction).unwrap().sort_by, None);

    let bad = QueryRequest {
        conditions: vec![cond("a", "eq", num(1)), cond("b", "approx", num(2)), cond("c", "nope", num(3))],
        limit: None,
        skip: None,
        sort_by: None,
        sort_direction: None,
    };
    match query_from_request(bad) {
        Err(m) => assert_eq!(m, "Invalid operator: approx"),
        Ok(_) => panic!("expected an error"),
    }
}

// ----- configuration, time and identifiers ----------------------------------

#[test]
fn default_config() {
    let c = Config::default();
    assert_eq!(c.name, "zachdb");
    assert_eq!(c.data_dir, "./zachdb-data");
    assert_eq!(c.host, "127.0.0.1");
    assert_eq!(c.port, 7878);
    assert_eq!(c.max_connections, 100);
    assert!(!c.log_http);
    assert_eq!(c.log_level, "info");
}

#[test]
fn document_identifiers_are_fresh_uuids() {
    let a = new_document_id();
    let b = new_document_id();
    assert_eq!(a.len(), 36);
    assert_ne!(a, b);
    for (i, ch) in a.chars().enumerate() {
        if i == 8 || i == 13 || i == 18 || i == 23 {
            assert_eq!(ch, '-');
        } else {
            assert!(ch.is_ascii_hexdigit() && !ch.is_ascii_uppercase());
        }
    }
    let chars: Vec<char> = a.chars().collect();
    assert_eq!(chars[14], '4');
    assert!(matches!(chars[19], '8' | '9' | 'a' | 'b'));
    let d = Document::new(num(1));
    assert_eq!(d.id.len(), 36);
    assert_eq!(d.id.chars().nth(14), Some('4'));
    assert_eq!(d.created_at, d.updated_at);
}

#[test]
fn clock_reads_current_time() {
    // 2020-01-01T00:00:00Z
    assert!(now_secs() > 1_577_836_800);
}

#[test]
fn integers_compare_by_value() {
    let limit: i64 = 1 << 53;
    let samples = [-limit, -limit + 1, -12345, -2, -1, 0, 1, 2, 3, 1000, limit - 2, limit - 1, limit];
    for &a in &samples {
        for &b in &samples {
            let expected = if a < b {
                Order::Less
            } else if a > b {
                Order::Greater
            } else {
                Order::Equal
            };
            assert_eq!(compare_json_values(&num(a), &num(b)), expected, "{} vs {}", a, b);
            assert_eq!(matches_condition(Some(&num(a)), QueryOperator::Lt, &num(b)), a < b);
            assert_eq!(matches_condition(Some(&num(a)), QueryOperator::Gte, &num(b)), a >= b);
        }
    }
}

#[test]
fn storage_error_messages() {
    assert_eq!(StorageError::IoError { message: "m".to_string() }.message(), "IO error: m");
    assert_eq!(StorageError::SerializationError { message: "m".to_string() }.message(), "Serialization error: m");
    assert_eq!(StorageError::DeserializationError { message: "m".to_string() }.message(), "Deserialization error: m");
    assert_eq!(StorageError::CollectionNotFound { name: "c".to_string() }.message(), "Collection not found: c");
    assert_eq!(StorageError::CollectionExists { name: "c".to_string() }.message(), "Collection already exists: c");
    assert_eq!(StorageError::DocumentNotFound { id: "d".to_string() }.message(), "Document not found: d");
}

#[test]
fn collection_summaries_count_documents() {
    let mut db = Database::new("db".to_string());
    db.create_collection("empty").unwrap();
    db.create_collection("two").unwrap();
    db.insert_document("two", Document::with_id("a".to_string(), num(1)), Ok(())).unwrap();
    db.insert_document("two", Document::with_id("b".to_string(), num(2)), Ok(())).unwrap();
    let mut got: Vec<(String, usize)> =
        collection_summaries(&db).into_iter().map(|c| (c.name, c.document_count)).collect();
    got.sort();
    assert_eq!(got, vec![("empty".to_string(), 0), ("two".to_string(), 2)]);
}

#[test]
fn exists_holds_for_a_field_that_holds_null() {
    let mut c = Collection::new("c".to_string());
    c.insert(Document::with_id("d1".to_string(), obj(vec![("a", JsonValue::Null)])), Ok(())).unwrap();
    c.insert(Document::with_id("d2".to_string(), obj(vec![("a", num(1))])), Ok(())).unwrap();
    c.insert(Document::with_id("d3".to_string(), obj(vec![("b", num(1))])), Ok(())).unwrap();
    let q = Query {
        conditions: vec![QueryCondition {
            field: "a".to_string(),
            operator: QueryOperator::Exists,
            value: JsonValue::Bool(true),
        }],
        limit: None,
        skip: None,
        sort_by: None,
    };
    let mut got = ids(&c.query(q, Ok(vec![])).unwrap());
    got.sort();
    assert_eq!(got, vec!["d1", "d2"]);
}

#[test]
fn listing_gives_each_stored_document_once() {
    let mut c = Collection::new("c".to_string());
    for (id, v) in [("x", 1), ("y", 2), ("z", 3), ("x", 4)] {
        c.insert(Document::with_id(id.to_string(), num(v)), Ok(())).unwrap();
    }
    let all = c.get_all();
    assert_eq!(all.len(), c.count());
    let mut seen = ids(&all);
    seen.sort();
    seen.dedup();
    assert_eq!(seen.len(), all.len());
    for d in &all {
        let stored = c.get(&d.id).unwrap();
        assert!(json_eq(&stored.data, &d.data));
        assert_eq!(stored.created_at, d.created_at);
    }
}

#[test]
fn index_lookups() {
    assert!(matches!(exact_key(&s("abc")), ExactKey::Text(t) if t == "abc"));
    assert!(matches!(exact_key(&JsonValue::Bool(true)), ExactKey::Text(t) if t == "true"));
    assert!(matches!(exact_key(&JsonValue::Bool(false)), ExactKey::Text(t) if t == "false"));
    assert!(matches!(exact_key(&num(7)), ExactKey::Number(n) if n.kind() == NumberRepr::PosInt(7)));
    assert!(matches!(exact_key(&JsonValue::Null), ExactKey::NoKey));
    assert!(matches!(exact_key(&JsonValue::Array(vec![])), ExactKey::NoKey));
    assert!(matches!(lookup_for(QueryOperator::Eq, &s("k")), IndexLookup::Exact(ExactKey::Text(t)) if t == "k"));
    assert!(matches!(lookup_for(QueryOperator::Contains, &s("word")), IndexLookup::Text(t) if t == "word"));
    assert!(matches!(lookup_for(QueryOperator::Contains, &num(1)), IndexLookup::Nothing));
    assert!(matches!(lookup_for(QueryOperator::Gt, &num(1)), IndexLookup::Nothing));
    assert!(matches!(lookup_for(QueryOperator::In, &s("k")), IndexLookup::Nothing));
}

#[test]
fn index_named_documents_are_filtered() {
    let mut c = Collection::new("c".to_string());
    c.insert(Document::with_id("a".to_string(), obj(vec![("v", num(1))])), Ok(())).unwrap();
    c.insert(Document::with_id("b".to_string(), obj(vec![("v", num(2))])), Ok(())).unwrap();
    let q = Query {
        conditions: vec![QueryCondition { field: "v".to_string(), operator: QueryOperator::Gt, value: num(1) }],
        limit: None,
        skip: None,
        sort_by: None,
    };
    let r = c.query(q, Ok(vec!["a".to_string(), "b".to_string()])).unwrap();
    assert_eq!(ids(&r), vec!["b"]);
}

#[test]
fn search_answers() {
    let v = |xs: &[&str]| xs.iter().map(|x| x.to_string()).collect::<Vec<String>>();
    let r = search_answer(&IndexLookup::Nothing, Some(v(&["x"])), None).unwrap();
    assert!(r.is_empty());
    let r = search_answer(&IndexLookup::Exact(ExactKey::NoKey), Some(v(&["x"])), None).unwrap();
    assert!(r.is_empty());
    let r = search_answer(&IndexLookup::Exact(ExactKey::Text("k".to_string())), Some(v(&["x", "y"])), None).unwrap();
    assert_eq!(r, v(&["x", "y"]));
    let r = search_answer(&IndexLookup::Exact(ExactKey::Text("k".to_string())), None, None).unwrap();
    assert!(r.is_empty());
    let r = search_answer(&IndexLookup::Text("w".to_string()), None, Some(Ok(v(&["z"])))).unwrap();
    assert_eq!(r, v(&["z"]));
    let r = search_answer(&IndexLookup::Text("w".to_string()), None, Some(Err(IndexError::SearchError("bad".to_string()))));
    assert!(matches!(r, Err(IndexError::SearchError(m)) if m == "bad"));
}

#[test]
fn request_errors_and_server_info() {
    assert_eq!(request_error_status(), 400);
    let mut db = Database::new("db".to_string());
    db.create_collection("a").unwrap();
    db.create_collection("b").unwrap();
    let info = server_info(&db);
    assert_eq!(info.name, "ZachDB");
    assert_eq!(info.collections, 2);
}

#[test]
fn joined_paths_look_up_in_turn() {
    let data = obj(vec![("user", obj(vec![("address", obj(vec![("city", s("Paris"))]))]))]);
    let whole = extract_value_from_path(&data, "user.address.city").unwrap();
    let first = extract_value_from_path(&data, "user").unwrap();
    let rest = extract_value_from_path(first, "address.city").unwrap();
    assert!(json_eq(whole, rest));
    assert!(extract_value_from_path(&data, "nobody.address").is_none());
    assert!(extract_value_from_path(&data, "nobody").is_none());
}
