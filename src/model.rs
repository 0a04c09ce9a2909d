use vstd::prelude::*;
use crate::json::Json;
use crate::schema::Schema;

verus! {

/// A named value of a collection, or a description of a path variable.
pub struct Variable {
    pub key: Option<String>,
    pub value: Option<Json>,
    pub description: Option<String>,
}

/// A query parameter of a request's URL.
pub struct QueryParam {
    pub key: Option<String>,
    pub value: Option<String>,
    pub description: Option<String>,
}

/// A request header.
pub struct Header {
    pub key: String,
    pub value: String,
}

/// How a request body is given.
#[derive(PartialEq, Eq, Structural, Clone, Copy, Debug)]
pub enum BodyMode {
    Raw,
    Urlencoded,
    Other,
}

/// One key-value pair of a url-encoded body.
pub struct UrlEncodedParam {
    pub key: String,
    pub value: Option<String>,
}

/// A request body.
pub struct Body {
    pub mode: Option<BodyMode>,
    pub raw: Option<String>,
    pub urlencoded: Option<Vec<UrlEncodedParam>>,
}

/// A request URL, in parts.
pub struct Url {
    pub protocol: Option<String>,
    pub host: Option<Vec<String>>,
    pub path: Option<Vec<String>>,
    pub query: Option<Vec<QueryParam>>,
    pub variable: Option<Vec<Variable>>,
}

/// A request.
pub struct Request {
    pub method: Option<String>,
    pub url: Option<Url>,
    pub header: Option<Vec<Header>>,
    pub body: Option<Body>,
    pub description: Option<String>,
}

/// An example response saved with a request.
pub struct ResponseExample {
    pub name: Option<String>,
    pub code: Option<i64>,
    pub body: Option<String>,
}

/// A node of the collection tree: a folder where `children` is present, a request leaf otherwise.
pub struct Item {
    pub name: Option<String>,
    pub description: Option<String>,
    pub children: Option<Vec<Item>>,
    pub request: Option<Request>,
    pub response: Option<Vec<Option<ResponseExample>>>,
}

/// A whole collection: its tree and its variables.
pub struct Collection {
    pub name: String,
    pub description: Option<String>,
    pub items: Vec<Item>,
    pub variables: Vec<Variable>,
}

/// A server of the produced document.
pub struct Server {
    pub url: String,
}

/// A tag of the produced document.
pub struct Tag {
    pub name: String,
    pub description: Option<String>,
}

/// A parameter of an operation or of a path.
pub struct Parameter {
    pub name: String,
    pub location: String,
    pub required: Option<bool>,
    pub description: Option<String>,
    pub schema: Schema,
}

/// The examples that a media type carries.
pub enum MediaExample {
    /// One example value.
    Example(Json),
    /// Named example values.
    Examples(Vec<(String, Json)>),
}

/// The content of one media type.
pub struct MediaType {
    pub schema: Option<Schema>,
    pub examples: Option<MediaExample>,
}

/// A request body: its content by media type.
pub struct RequestBody {
    pub content: Vec<(String, MediaType)>,
}

/// A response of an operation.
pub struct Response {
    pub description: Option<String>,
    pub content: Option<Vec<(String, MediaType)>>,
}

/// One operation.
pub struct Operation {
    pub summary: Option<String>,
    pub description: Option<String>,
    pub tags: Option<Vec<String>>,
    pub parameters: Option<Vec<Parameter>>,
    pub request_body: Option<RequestBody>,
    pub responses: Vec<(String, Response)>,
    pub operation_id: Option<String>,
}

/// The operations under one path template.
pub struct PathItem {
    pub parameters: Option<Vec<Parameter>>,
    pub get: Option<Operation>,
    pub post: Option<Operation>,
    pub put: Option<Operation>,
    pub delete: Option<Operation>,
    pub patch: Option<Operation>,
    pub options: Option<Operation>,
    pub trace: Option<Operation>,
}

/// The produced specification document.
pub struct OpenApi {
    pub openapi: String,
    pub title: String,
    pub description: Option<String>,
    pub version: String,
    pub servers: Vec<Server>,
    pub tags: Vec<Tag>,
    pub paths: Vec<(String, PathItem)>,
}

} // verus!
