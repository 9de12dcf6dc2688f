//! Plain request and response values, with their mathematical views.

use vstd::prelude::*;

verus! {

/// The request methods the routing core distinguishes.
#[derive(Clone, Copy, PartialEq, Eq, Structural, Debug)]
pub enum Method {
    Get,
    Post,
    Put,
    Delete,
}

/// One incoming request: a method, a raw path, the raw query string,
/// and the buffered body bytes.
pub struct Request {
    pub method: Method,
    pub path: Vec<u8>,
    pub query: Vec<u8>,
    pub body: Vec<u8>,
}

/// Ghost view of a request.
pub struct ReqView {
    pub method: Method,
    pub path: Seq<u8>,
    pub query: Seq<u8>,
    pub body: Seq<u8>,
}

impl View for Request {
    type V = ReqView;

    open spec fn view(&self) -> ReqView {
        ReqView {
            method: self.method,
            path: self.path@,
            query: self.query@,
            body: self.body@,
        }
    }
}

/// One outgoing response: a status code and the body bytes.
pub struct Response {
    pub status: u16,
    pub body: Vec<u8>,
}

/// Ghost view of a response.
pub struct RespView {
    pub status: u16,
    pub body: Seq<u8>,
}

impl View for Response {
    type V = RespView;

    open spec fn view(&self) -> RespView {
        RespView { status: self.status, body: self.body@ }
    }
}

/// The response sent when no route pattern matches the request path.
pub open spec fn not_found_view() -> RespView {
    RespView { status: 404, body: Seq::empty() }
}

/// The response sent when a pattern matches the path but under another method.
pub open spec fn method_not_allowed_view() -> RespView {
    RespView { status: 405, body: Seq::empty() }
}

/// The response sent when a handler argument cannot be extracted.
pub open spec fn bad_request_view() -> RespView {
    RespView { status: 400, body: Seq::empty() }
}

/// Builds the 404 response.
pub fn not_found() -> (r: Response)
    ensures
        r@ == not_found_view(),
{
    let r = Response { status: 404, body: Vec::new() };
    proof {
        assert(r@.body =~= not_found_view().body);
    }
    r
}

/// Builds the 405 response.
pub fn method_not_allowed() -> (r: Response)
    ensures
        r@ == method_not_allowed_view(),
{
    let r = Response { status: 405, body: Vec::new() };
    proof {
        assert(r@.body =~= method_not_allowed_view().body);
    }
    r
}

/// Builds the 400 response.
pub fn bad_request() -> (r: Response)
    ensures
        r@ == bad_request_view(),
{
    let r = Response { status: 400, body: Vec::new() };
    proof {
        assert(r@.body =~= bad_request_view().body);
    }
    r
}

} // verus!
