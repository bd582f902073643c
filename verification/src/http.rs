//! The request and response values that flow through the middleware chain.
//! The surrounding transport hands a request in as plain values; the chain
//! produces a response of plain values.

use vstd::prelude::*;

verus! {

/// The HTTP methods the route table distinguishes.
#[derive(Clone, Copy, PartialEq, Eq, Structural, Debug)]
pub enum Method {
    Get,
    Post,
}

/// The parsed parts of a request: everything but the body.
pub struct RequestParts {
    pub method: Method,
    pub path: String,
    /// the bearer credential, if the request carried one
    pub authorization: Option<String>,
}

/// A request: parts and raw body.
pub struct Request {
    pub parts: RequestParts,
    pub body: Vec<u8>,
}

/// The mathematical content of a request.
#[verifier::ext_equal]
pub struct RequestView {
    pub method: Method,
    pub path: Seq<char>,
    pub authorization: Option<Seq<char>>,
    pub body: Seq<u8>,
}

impl View for Request {
    type V = RequestView;

    open spec fn view(&self) -> RequestView {
        RequestView {
            method: self.parts.method,
            path: self.parts.path@,
            authorization: match self.parts.authorization {
                Some(ref a) => Some(a@),
                None => None,
            },
            body: self.body@,
        }
    }
}

/// A wire response: status code and textual body.
pub struct Response {
    pub status: u16,
    pub body: String,
}

/// The mathematical content of a response.
#[verifier::ext_equal]
pub struct ResponseView {
    pub status: u16,
    pub body: Seq<char>,
}

impl View for Response {
    type V = ResponseView;

    open spec fn view(&self) -> ResponseView {
        ResponseView { status: self.status, body: self.body@ }
    }
}

} // verus!
