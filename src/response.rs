//! Responses, request methods, and the uniform handler contract.
use vstd::prelude::*;
use crate::context::Context;

verus! {

pub const STATUS_OK: u16 = 200;

pub const STATUS_NOT_FOUND: u16 = 404;

pub const STATUS_METHOD_NOT_ALLOWED: u16 = 405;

pub const STATUS_INTERNAL_SERVER_ERROR: u16 = 500;

/// Request method.
#[derive(Clone, Copy, PartialEq, Eq, Structural)]
pub enum Method {
    Get,
    Head,
    Post,
    Put,
    Delete,
    Patch,
    Options,
    Other,
}

/// How the body of a response is produced.
#[derive(Clone, Copy, PartialEq, Eq, Structural)]
pub enum Body {
    /// No body at all.
    Empty,
    /// A stream of chunks that a worker reads from a file.
    Stream,
}

/// Status, the headers this core sets, and the kind of body.
pub struct Response {
    pub status: u16,
    pub content_length: Option<u64>,
    pub allow: Vec<Method>,
    pub body: Body,
}

impl Response {
    /// A response with only a status: no headers, no body.
    pub open spec fn is_bare(&self, status: u16) -> bool {
        &&& self.status == status
        &&& self.content_length is None
        &&& self.allow@.len() == 0
        &&& self.body == Body::Empty
    }

    pub fn with_status(status: u16) -> (r: Response)
        ensures
            r.is_bare(status),
    {
        Response { status, content_length: None, allow: Vec::new(), body: Body::Empty }
    }
}

/// An error raised by a handler, with its diagnostic text.
pub struct HandlerError {
    pub message: String,
}

/// The response that stands in for any handler error: status 500 with an
/// empty body, which carries nothing of the error.
pub fn default_catch(err: &HandlerError) -> (r: Response)
    ensures
        r.is_bare(STATUS_INTERNAL_SERVER_ERROR),
{
    Response::with_status(STATUS_INTERNAL_SERVER_ERROR)
}

/// The response for a handler's outcome: a successful response passes
/// through unchanged, and an error becomes the fixed internal-error
/// response.
pub fn recover(outcome: Result<Response, HandlerError>) -> (r: Response)
    ensures
        match outcome {
            Ok(resp) => r == resp,
            Err(_) => r.is_bare(STATUS_INTERNAL_SERVER_ERROR),
        },
{
    match outcome {
        Ok(resp) => resp,
        Err(e) => default_catch(&e),
    }
}

/// Application logic that answers a request with a response or an error.
pub trait Handler {
    /// Whether `outcome` is a possible answer of this handler to `ctx`;
    /// each implementation defines it.
    spec fn answers(&self, ctx: Context, outcome: Result<Response, HandlerError>) -> bool;

    fn call(&self, ctx: &Context) -> (r: Result<Response, HandlerError>)
        ensures
            self.answers(*ctx, r),
    ;
}

/// Runs `handler` and converts its outcome with [`recover`]: no error gets
/// past this call. The result is the response of one of the handler's
/// answers to `ctx` when that answer succeeded, and the fixed internal-error
/// response when it failed.
pub fn into_box<H: Handler>(handler: &H, ctx: &Context) -> (r: Response)
    ensures
        exists|o: Result<Response, HandlerError>|
            #[trigger] handler.answers(*ctx, o) && match o {
                Ok(resp) => r == resp,
                Err(_) => r.is_bare(STATUS_INTERNAL_SERVER_ERROR),
            },
{
    let o = handler.call(ctx);
    let ghost go = o;
    let r = recover(o);
    assert(handler.answers(*ctx, go));
    r
}

} // verus!
