//! Shapes of the HTTP API's requests and responses, and the decisions the
//! handlers make: which status answers which outcome, and how a query
//! request becomes a database query.
use vstd::prelude::*;
use vstd::string::*;
use crate::errors::{DbError, spec_db_error_message};
use crate::json::JsonValue;
use crate::query::{Query, QueryCondition, QueryOperator};
use crate::database::Database;

verus! {

/// API response wrapper.
pub struct ApiResponse<T> {
    /// Whether the request was successful.
    pub success: bool,
    /// Data of a successful response.
    pub data: Option<T>,
    /// Error message of a failed response.
    pub error: Option<String>,
}

impl<T> ApiResponse<T> {
    /// A successful response carrying `data`.
    pub fn success(data: T) -> (r: Self)
        ensures
            r.success,
            r.data == Some(data),
            r.error is None,
    {
        ApiResponse { success: true, data: Some(data), error: None }
    }

    /// A failed response carrying `message`.
    pub fn error(message: String) -> (r: Self)
        ensures
            !r.success,
            r.data is None,
            r.error == Some(message),
    {
        ApiResponse { success: false, data: None, error: Some(message) }
    }
}

/// Collection creation request.
pub struct CreateCollectionRequest {
    pub name: String,
}

/// Collection response.
pub struct CollectionResponse {
    pub name: String,
    pub document_count: usize,
}

/// Document creation request.
pub struct CreateDocumentRequest {
    pub data: JsonValue,
}

/// Document update request.
pub struct UpdateDocumentRequest {
    pub data: JsonValue,
}

/// A condition of a query request; the operator is given by name.
pub struct QueryConditionRequest {
    pub field: String,
    pub operator: String,
    pub value: JsonValue,
}

/// Query request.
pub struct QueryRequest {
    pub conditions: Vec<QueryConditionRequest>,
    pub limit: Option<usize>,
    pub skip: Option<usize>,
    pub sort_by: Option<String>,
    pub sort_direction: Option<String>,
}

/// The HTTP endpoints of the API.
#[derive(Clone, Copy, PartialEq, Eq, Structural, Debug)]
pub enum Endpoint {
    ServerInfo,
    ListCollections,
    CreateCollection,
    DeleteCollection,
    GetAllDocuments,
    GetDocument,
    CreateDocument,
    UpdateDocument,
    DeleteDocument,
    QueryDocuments,
}

/// The status an endpoint answers a success with: 201 (created) for the
/// creation of a collection or a document, 200 (OK) otherwise.
pub open spec fn spec_success_status(endpoint: Endpoint) -> u16 {
    match endpoint {
        Endpoint::CreateCollection | Endpoint::CreateDocument => 201,
        _ => 200,
    }
}

/// The status an endpoint answers a database error with: 409 (conflict)
/// for an existing collection on creation; 404 (not found) for a missing
/// collection, and for a missing document where a document is addressed;
/// 400 (bad request) for invalid data on update and an invalid query on
/// query; 500 (internal server error) otherwise, and for any failure to
/// create a document.
pub open spec fn spec_error_status(endpoint: Endpoint, e: DbError) -> u16 {
    match endpoint {
        Endpoint::CreateCollection => if e is CollectionExists {
            409
        } else {
            500
        },
        Endpoint::DeleteCollection | Endpoint::GetAllDocuments => if e is CollectionNotFound {
            404
        } else {
            500
        },
        Endpoint::GetDocument | Endpoint::DeleteDocument => if e is CollectionNotFound || e is DocumentNotFound {
            404
        } else {
            500
        },
        Endpoint::UpdateDocument => if e is CollectionNotFound || e is DocumentNotFound {
            404
        } else if e is InvalidData {
            400
        } else {
            500
        },
        Endpoint::QueryDocuments => if e is CollectionNotFound {
            404
        } else if e is InvalidQuery {
            400
        } else {
            500
        },
        _ => 500,
    }
}

/// The status of a successful answer of `endpoint`.
pub fn success_status(endpoint: Endpoint) -> (r: u16)
    ensures
        r == spec_success_status(endpoint),
{
    match endpoint {
        Endpoint::CreateCollection | Endpoint::CreateDocument => 201,
        _ => 200,
    }
}

/// The status with which `endpoint` answers the error `e`.
pub fn error_status(endpoint: Endpoint, e: &DbError) -> (r: u16)
    ensures
        r == spec_error_status(endpoint, *e),
{
    match endpoint {
        Endpoint::CreateCollection => match e {
            DbError::CollectionExists(_) => 409,
            _ => 500,
        },
        Endpoint::DeleteCollection | Endpoint::GetAllDocuments => match e {
            DbError::CollectionNotFound(_) => 404,
            _ => 500,
        },
        Endpoint::GetDocument | Endpoint::DeleteDocument => match e {
            DbError::CollectionNotFound(_) | DbError::DocumentNotFound(_) => 404,
            _ => 500,
        },
        Endpoint::UpdateDocument => match e {
            DbError::CollectionNotFound(_) | DbError::DocumentNotFound(_) => 404,
            DbError::InvalidData(_) => 400,
            _ => 500,
        },
        Endpoint::QueryDocuments => match e {
            DbError::CollectionNotFound(_) => 404,
            DbError::InvalidQuery(_) => 400,
            _ => 500,
        },
        _ => 500,
    }
}

/// The status with which a malformed request is answered: 400 (bad
/// request), as for a query naming an unknown operator.
pub open spec fn spec_request_error_status() -> u16 {
    400
}

/// The status of the answer to a malformed request (see
/// [`spec_request_error_status`]).
pub fn request_error_status() -> (r: u16)
    ensures
        r == spec_request_error_status(),
{
    400
}

/// The message of an error answer: the error's own message, except for the
/// creation of a document, which prefixes it with what failed.
pub open spec fn spec_error_message(endpoint: Endpoint, e: DbError) -> Seq<char> {
    if endpoint == Endpoint::CreateDocument {
        "Failed to create document: "@ + spec_db_error_message(e)
    } else {
        spec_db_error_message(e)
    }
}

/// The message of the answer of `endpoint` to the error `e`.
pub fn error_message(endpoint: Endpoint, e: &DbError) -> (r: String)
    ensures
        r@ == spec_error_message(endpoint, *e),
{
    let m = e.message();
    if endpoint == Endpoint::CreateDocument {
        String::from_str("Failed to create document: ").concat(m.as_str())
    } else {
        m
    }
}

/// The operator that a query request names: `eq`, `ne`, `gt`, `gte`, `lt`,
/// `lte`, `contains`, `exists` or `in`.
pub open spec fn spec_parse_operator(name: Seq<char>) -> Option<QueryOperator> {
    if name == "eq"@ {
        Some(QueryOperator::Eq)
    } else if name == "ne"@ {
        Some(QueryOperator::Ne)
    } else if name == "gt"@ {
        Some(QueryOperator::Gt)
    } else if name == "gte"@ {
        Some(QueryOperator::Gte)
    } else if name == "lt"@ {
        Some(QueryOperator::Lt)
    } else if name == "lte"@ {
        Some(QueryOperator::Lte)
    } else if name == "contains"@ {
        Some(QueryOperator::Contains)
    } else if name == "exists"@ {
        Some(QueryOperator::Exists)
    } else if name == "in"@ {
        Some(QueryOperator::In)
    } else {
        None
    }
}

/// The operator named `name`, if it is one (see [`spec_parse_operator`]).
pub fn parse_operator(name: &str) -> (r: Option<QueryOperator>)
    ensures
        r == spec_parse_operator(name@),
{
    let n = String::from_str(name);
    if n == String::from_str("eq") {
        Some(QueryOperator::Eq)
    } else if n == String::from_str("ne") {
        Some(QueryOperator::Ne)
    } else if n == String::from_str("gt") {
        Some(QueryOperator::Gt)
    } else if n == String::from_str("gte") {
        Some(QueryOperator::Gte)
    } else if n == String::from_str("lt") {
        Some(QueryOperator::Lt)
    } else if n == String::from_str("lte") {
        Some(QueryOperator::Lte)
    } else if n == String::from_str("contains") {
        Some(QueryOperator::Contains)
    } else if n == String::from_str("exists") {
        Some(QueryOperator::Exists)
    } else if n == String::from_str("in") {
        Some(QueryOperator::In)
    } else {
        None
    }
}

/// Whether `q` is the query that `request` asks for: the same conditions,
/// each with its named operator, the same paging, and sorting by the field
/// named when both a field and a direction are given (ascending exactly
/// when the direction is `asc`).
pub open spec fn spec_query_of(request: QueryRequest, q: Query) -> bool {
    &&& q.conditions@.len() == request.conditions@.len()
    &&& forall|i: int|
        0 <= i < q.conditions@.len() ==> {
            let c = #[trigger] q.conditions@[i];
            let rc = request.conditions@[i];
            &&& c.field@ == rc.field@
            &&& Some(c.operator) == spec_parse_operator(rc.operator@)
            &&& c.value@ == rc.value@
        }
    &&& q.limit == request.limit
    &&& q.skip == request.skip
    &&& match (request.sort_by, request.sort_direction) {
        (Some(f), Some(d)) => q.sort_by matches Some((field, ascending)) && field@ == f@ && ascending == (d@
            == "asc"@),
        _ => q.sort_by is None,
    }
}

/// The database query that `request` asks for; the first condition naming
/// an unknown operator makes it an error with the message
/// `Invalid operator: <name>`.
pub fn query_from_request(request: QueryRequest) -> (r: Result<Query, String>)
    ensures
        match r {
            Ok(q) => spec_query_of(request, q),
            Err(m) => exists|i: int|
                0 <= i < request.conditions@.len() && spec_parse_operator(#[trigger] request.conditions@[i].operator@) is None
                    && (forall|j: int| 0 <= j < i ==> spec_parse_operator(#[trigger] request.conditions@[j].operator@) is Some)
                    && m@ == "Invalid operator: "@ + request.conditions@[i].operator@,
        },
{
    let ghost req = request;
    let QueryRequest { conditions: requested, limit, skip, sort_by, sort_direction } = request;
    let mut conditions: Vec<QueryCondition> = Vec::new();
    let mut i: usize = 0;
    let n = requested.len();
    let mut rest = requested;
    while i < n
        invariant
            i <= n,
            req == request,
            n == req.conditions@.len(),
            rest@ == req.conditions@.skip(i as int),
            conditions@.len() == i,
            forall|j: int|
                0 <= j < i ==> {
                    let c = #[trigger] conditions@[j];
                    let rc = req.conditions@[j];
                    &&& c.field@ == rc.field@
                    &&& Some(c.operator) == spec_parse_operator(rc.operator@)
                    &&& c.value@ == rc.value@
                },
        decreases n - i,
    {
        let c = rest.remove(0);
        assert(c == req.conditions@[i as int]);
        match parse_operator(c.operator.as_str()) {
            None => {
                proof {
                    assert forall|j: int| 0 <= j < i implies spec_parse_operator(
                        #[trigger] req.conditions@[j].operator@,
                    ) is Some by {
                        assert(Some(conditions@[j].operator) == spec_parse_operator(req.conditions@[j].operator@));
                    }
                }
                let m = String::from_str("Invalid operator: ").concat(c.operator.as_str());
                assert(spec_parse_operator(req.conditions@[i as int].operator@) is None);
                assert(m@ == "Invalid operator: "@ + req.conditions@[i as int].operator@);
                return Err(m);
            },
            Some(operator) => {
                conditions.push(QueryCondition { field: c.field, operator, value: c.value });
            },
        }
        assert(rest@ =~= req.conditions@.skip(i + 1));
        i = i + 1;
    }
    let sort = match (sort_by, sort_direction) {
        (Some(field), Some(direction)) => {
            let ascending = direction == String::from_str("asc");
            Some((field, ascending))
        },
        _ => None,
    };
    Ok(Query { conditions, limit, skip, sort_by: sort })
}

/// The names of the summaries, in order.
pub open spec fn summary_names(s: Seq<CollectionResponse>) -> Seq<Seq<char>> {
    s.map_values(|c: CollectionResponse| c.name@)
}

/// One summary per collection of `db`, each with the collection's number of
/// documents, in the order in which the database lists its collections.
pub fn collection_summaries(db: &Database) -> (r: Vec<CollectionResponse>)
    ensures
        summary_names(r@).no_duplicates(),
        summary_names(r@).to_set() == db@.collections.dom(),
        forall|i: int|
            0 <= i < r@.len() ==> #[trigger] r@[i].document_count == db@.collections[r@[i].name@].documents.len(),
{
    let names = db.list_collections();
    let ghost nv = names@.map_values(|k: String| k@);
    let mut out: Vec<CollectionResponse> = Vec::new();
    let mut i: usize = 0;
    while i < names.len()
        invariant
            i <= names.len(),
            nv == names@.map_values(|k: String| k@),
            nv.to_set() == db@.collections.dom(),
            out@.len() == i,
            forall|j: int| 0 <= j < i ==> #[trigger] out@[j].name@ == nv[j],
            forall|j: int|
                0 <= j < i ==> #[trigger] out@[j].document_count == db@.collections[out@[j].name@].documents.len(),
        decreases names.len() - i,
    {
        let name = names[i].clone();
        proof {
            assert(nv[i as int] == name@);
            assert(nv.to_set().contains(name@));
        }
        let count = match db.get_collection(name.as_str()) {
            Ok(info) => info.count(),
            Err(_) => 0,
        };
        out.push(CollectionResponse { name, document_count: count });
        i = i + 1;
    }
    proof {
        assert(summary_names(out@) =~= nv);
    }
    out
}

/// What the server reports about itself, apart from its version.
pub struct ServerInfo {
    /// The product name, `ZachDB`.
    pub name: String,
    /// The number of collections of the database.
    pub collections: usize,
}

/// The server's report on `db`: its name and how many collections the
/// database holds.
pub fn server_info(db: &Database) -> (r: ServerInfo)
    ensures
        r.name@ == "ZachDB"@,
        r.collections == db@.collections.dom().len(),
        db@.collections.dom().finite(),
{
    let names = db.list_collections();
    proof {
        let nv = names@.map_values(|k: String| k@);
        nv.unique_seq_to_set();
        assert(nv.len() == names@.len());
    }
    let name = String::from_str("ZachDB");
    proof {
        reveal_strlit("ZachDB");
    }
    ServerInfo { name, collections: names.len() }
}

} // verus!
