//! The parts of an OpenAPI document that endpoint detail reads: paths,
//! operations, parameters, request bodies and responses, and the named
//! components they refer to.
use vstd::prelude::*;
use crate::models::openapi::SchemaRef;

verus! {

/// The key of a response: a status code, or a range such as `4XX`.
#[derive(Debug, Clone, Copy)]
pub enum StatusKey {
    Code(u16),
    Range(u16),
}

/// One media type of a request body or response: the content type, its
/// schema, and its example as JSON text.
#[derive(Debug)]
pub struct MediaDef {
    pub content_type: String,
    pub schema: Option<SchemaRef>,
    pub example: Option<String>,
}

#[derive(Debug)]
pub struct RequestBodyDef {
    pub content: Vec<MediaDef>,
}

/// A request body given inline, or a `$ref` to one.
#[derive(Debug)]
pub enum BodyRef {
    Item(RequestBodyDef),
    Reference(String),
}

/// How a header or parameter is described: by a schema, or by content.
#[derive(Debug)]
pub enum ValueSchema {
    Schema(SchemaRef),
    Content,
}

#[derive(Debug)]
pub struct HeaderDef {
    pub name: String,
    pub schema: ValueSchema,
    pub description: Option<String>,
}

/// A response header given inline, or by a `$ref`.
#[derive(Debug)]
pub enum HeaderRef {
    Item(HeaderDef),
    Reference(String),
}

/// What a link points at: an operation id, or an operation reference.
#[derive(Debug)]
pub enum LinkTarget {
    OperationId(String),
    OperationRef(String),
}

/// A response link: its name, target, parameters as `(name, value)` with
/// the value as text (a JSON string as its content, anything else as JSON),
/// and description.
#[derive(Debug)]
pub struct LinkDef {
    pub name: String,
    pub target: LinkTarget,
    pub parameters: Vec<(String, String)>,
    pub description: Option<String>,
}

#[derive(Debug)]
pub enum LinkRef {
    Item(LinkDef),
    Reference(String),
}

#[derive(Debug)]
pub struct ResponseDef {
    pub description: String,
    pub content: Vec<MediaDef>,
    pub headers: Vec<HeaderRef>,
    pub links: Vec<LinkRef>,
}

#[derive(Debug)]
pub enum ResponseRef {
    Item(ResponseDef),
    Reference(String),
}

#[derive(Debug, Clone, Copy)]
pub enum ParamKind {
    Query,
    Path,
    Header,
    Cookie,
}

#[derive(Debug)]
pub struct ParamDef {
    pub name: String,
    pub kind: ParamKind,
    pub required: bool,
    pub description: Option<String>,
    pub schema: ValueSchema,
}

/// A parameter given inline, or a `$ref` to one.
#[derive(Debug)]
pub enum ParamRef {
    Item(ParamDef),
    Reference(String),
}

/// An operation. `security` lists, for each requirement, the names of the
/// schemes it names; `callbacks` gives each callback's name and its
/// `(URL expression, path item)` pairs.
#[derive(Debug)]
pub struct OperationDef {
    pub operation_id: Option<String>,
    pub summary: Option<String>,
    pub description: Option<String>,
    pub deprecated: bool,
    /// `x-alpha: true`.
    pub alpha: bool,
    pub tags: Vec<String>,
    pub parameters: Vec<ParamRef>,
    pub request_body: Option<BodyRef>,
    pub responses: Vec<(StatusKey, ResponseRef)>,
    pub default_response: Option<ResponseRef>,
    pub security: Option<Vec<Vec<String>>>,
    pub callbacks: Vec<(String, Vec<(String, PathItemDef)>)>,
}

/// A path item: its shared parameters and its operations, each under its
/// method in upper case, in the order GET, POST, PUT, DELETE, PATCH, HEAD,
/// OPTIONS, TRACE.
#[derive(Debug)]
pub struct PathItemDef {
    pub parameters: Vec<ParamRef>,
    pub operations: Vec<(String, OperationDef)>,
}

#[derive(Debug)]
pub enum PathRef {
    Item(PathItemDef),
    Reference(String),
}

/// A document: its paths in order, its named schemas, parameters and
/// request bodies, and its top-level security requirements.
#[derive(Debug)]
pub struct ApiDef {
    pub paths: Vec<(String, PathRef)>,
    pub schemas: Vec<(String, SchemaRef)>,
    pub parameters: Vec<(String, ParamRef)>,
    pub request_bodies: Vec<(String, BodyRef)>,
    pub security: Option<Vec<Vec<String>>>,
}

} // verus!
