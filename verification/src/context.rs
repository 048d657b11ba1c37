//! The per-request carrier and the response envelope. Each type has a
//! mathematical model over character sequences, so that middleware and
//! handler behaviour can be stated as functions of models.

use vstd::prelude::*;
use crate::route::Method;
use crate::strutil::alist_view;

verus! {

/// A parsed request body, as the surrounding transport hands it in.
/// Body deserialization itself is an external collaborator; the kernel
/// receives plain values.
pub enum RequestBody {
    Empty,
    /// A `{user_name, password}` credential body.
    Credentials { user_name: String, password: String },
    /// A `{name, age}` identity body.
    Identity { name: String, age: u32 },
    /// A `{value}` counter body.
    CounterValue { value: u32 },
}

/// Model of a request body.
pub enum BodyModel {
    Empty,
    Credentials { user_name: Seq<char>, password: Seq<char> },
    Identity { name: Seq<char>, age: u32 },
    CounterValue { value: u32 },
}

impl View for RequestBody {
    type V = BodyModel;

    open spec fn view(&self) -> BodyModel {
        match self {
            RequestBody::Empty => BodyModel::Empty,
            RequestBody::Credentials { user_name, password } => BodyModel::Credentials {
                user_name: user_name@,
                password: password@,
            },
            RequestBody::Identity { name, age } => BodyModel::Identity { name: name@, age: *age },
            RequestBody::CounterValue { value } => BodyModel::CounterValue { value: *value },
        }
    }
}

/// The per-request context: read-only request data, the parameters the
/// matcher extracted, and the extension slots middleware fill. No two
/// requests share one.
pub struct RequestContext {
    pub method: Method,
    pub path: String,
    pub headers: Vec<(String, String)>,
    pub query: Vec<(String, String)>,
    pub params: Vec<(String, String)>,
    pub wildcard: Option<String>,
    pub extensions: Vec<(String, String)>,
    pub body: RequestBody,
}

/// Model of a request context.
pub struct CtxModel {
    pub method: Method,
    pub path: Seq<char>,
    pub headers: Seq<(Seq<char>, Seq<char>)>,
    pub query: Seq<(Seq<char>, Seq<char>)>,
    pub params: Seq<(Seq<char>, Seq<char>)>,
    pub wildcard: Option<Seq<char>>,
    pub extensions: Seq<(Seq<char>, Seq<char>)>,
    pub body: BodyModel,
}

impl View for RequestContext {
    type V = CtxModel;

    open spec fn view(&self) -> CtxModel {
        CtxModel {
            method: self.method,
            path: self.path@,
            headers: alist_view(self.headers@),
            query: alist_view(self.query@),
            params: alist_view(self.params@),
            wildcard: match self.wildcard {
                Some(w) => Some(w@),
                None => None,
            },
            extensions: alist_view(self.extensions@),
            body: self.body@,
        }
    }
}

impl RequestContext {
    /// A fresh context for (method, path): no parameters, no extensions.
    pub fn new(method: Method, path: String) -> (r: RequestContext)
        ensures
            r@ == (CtxModel {
                method,
                path: path@,
                headers: Seq::<(Seq<char>, Seq<char>)>::empty(),
                query: Seq::<(Seq<char>, Seq<char>)>::empty(),
                params: Seq::<(Seq<char>, Seq<char>)>::empty(),
                wildcard: None::<Seq<char>>,
                extensions: Seq::<(Seq<char>, Seq<char>)>::empty(),
                body: BodyModel::Empty,
            }),
    {
        let r = RequestContext {
            method,
            path,
            headers: Vec::new(),
            query: Vec::new(),
            params: Vec::new(),
            wildcard: None,
            extensions: Vec::new(),
            body: RequestBody::Empty,
        };
        proof {
            assert(alist_view(r.headers@) =~= Seq::<(Seq<char>, Seq<char>)>::empty());
            assert(alist_view(r.query@) =~= Seq::<(Seq<char>, Seq<char>)>::empty());
            assert(alist_view(r.params@) =~= Seq::<(Seq<char>, Seq<char>)>::empty());
            assert(alist_view(r.extensions@) =~= Seq::<(Seq<char>, Seq<char>)>::empty());
        }
        r
    }
}

/// What a response carries besides its transport status: plain text, the
/// auth envelope, or an echoed structure. The surrounding transport
/// serializes it.
pub enum ResponseBody {
    Text(String),
    /// The `{status, message, data}` envelope of the auth endpoints.
    Envelope { status: u16, message: String, data: String },
    /// An echoed `{name, age}` identity.
    IdentityEcho { name: String, age: u32 },
    /// An echoed counter value.
    CounterEcho { value: u32 },
}

/// Model of a response body.
pub enum RespBodyModel {
    Text(Seq<char>),
    Envelope { status: u16, message: Seq<char>, data: Seq<char> },
    IdentityEcho { name: Seq<char>, age: u32 },
    CounterEcho { value: u32 },
}

/// A response: the transport status code and the body.
pub struct Response {
    pub status: u16,
    pub body: ResponseBody,
}

/// Model of a response.
pub struct RespModel {
    pub status: u16,
    pub body: RespBodyModel,
}

impl View for ResponseBody {
    type V = RespBodyModel;

    open spec fn view(&self) -> RespBodyModel {
        match self {
            ResponseBody::Text(s) => RespBodyModel::Text(s@),
            ResponseBody::Envelope { status, message, data } => RespBodyModel::Envelope {
                status: *status,
                message: message@,
                data: data@,
            },
            ResponseBody::IdentityEcho { name, age } => RespBodyModel::IdentityEcho {
                name: name@,
                age: *age,
            },
            ResponseBody::CounterEcho { value } => RespBodyModel::CounterEcho { value: *value },
        }
    }
}

impl View for Response {
    type V = RespModel;

    open spec fn view(&self) -> RespModel {
        RespModel { status: self.status, body: self.body@ }
    }
}

/// A plain-text response model.
pub open spec fn text_model(status: u16, s: Seq<char>) -> RespModel {
    RespModel { status, body: RespBodyModel::Text(s) }
}

/// An envelope response model: the transport answers 200 and the
/// envelope carries the outcome's own status, as the auth endpoints do.
pub open spec fn envelope_model(status: u16, message: Seq<char>, data: Seq<char>) -> RespModel {
    RespModel {
        status: 200,
        body: RespBodyModel::Envelope { status, message, data },
    }
}

/// A plain-text response.
pub fn text_response(status: u16, s: &str) -> (r: Response)
    ensures
        r@ == text_model(status, s@),
{
    Response { status, body: ResponseBody::Text(s.to_owned()) }
}

/// An envelope response.
pub fn envelope_response(status: u16, message: &str, data: String) -> (r: Response)
    ensures
        r@ == envelope_model(status, message@, data@),
{
    Response {
        status: 200,
        body: ResponseBody::Envelope { status, message: message.to_owned(), data },
    }
}

} // verus!
