//! A handler that serves the files under a root directory.
use vstd::prelude::*;
use crate::context::{Context, Parameters, stored};
use crate::file::{Metadata, file_response, respond_file};
use crate::path::{join_under, joined, normalized};
use crate::response::{Body, Method, Response, STATUS_METHOD_NOT_ALLOWED};

verus! {

/// The route parameter that holds the requested path by default.
pub open spec fn default_param() -> Seq<char> {
    seq!['f', 'i', 'l', 'e', 'p', 'a', 't', 'h']
}

/// The raw path that a request asks for: the value of the route parameter
/// `param` in its request-scoped store.
pub open spec fn requested(ctx: Context, param: Seq<char>) -> Option<Seq<char>> {
    match stored::<Parameters>(ctx.request@) {
        Some(p) => match p.lookup(param) {
            Some(v) => Some(v@),
            None => None,
        },
        None => None,
    }
}

/// The response that refuses a method: 405, allowing GET and HEAD.
pub open spec fn method_rejected(r: Response) -> bool {
    &&& r.status == STATUS_METHOD_NOT_ALLOWED
    &&& r.content_length is None
    &&& r.allow@ == seq![Method::Get, Method::Head]
    &&& r.body == Body::Empty
}

/// Serves the files under a root directory.
pub struct StaticFile {
    pub root_path: String,
    pub threads: usize,
    pub param: String,
}

impl StaticFile {
    /// Serves files from `root`, with `threads` workers for the reads, and
    /// takes the requested path from the route parameter `filepath`.
    pub fn new(root: &str, threads: usize) -> (r: StaticFile)
        ensures
            r.root_path@ == root@,
            r.threads == threads,
            r.param@ == default_param(),
    {
        let param = "filepath".to_owned();
        proof {
            reveal_strlit("filepath");
            assert(param@ =~= default_param());
        }
        StaticFile { root_path: root.to_owned(), threads, param }
    }

    /// Takes the requested path from the route parameter `name` from now
    /// on. The value need not be normalized: the handler does that.
    pub fn set_retreive_path(&mut self, name: &str)
        ensures
            final(self).param@ == name@,
            final(self).root_path == old(self).root_path,
            final(self).threads == old(self).threads,
    {
        self.param = name.to_owned();
    }

    /// The full path of the file that `ctx` asks for, or `None` when the
    /// request carries no such route parameter.
    pub fn target(&self, ctx: &Context) -> (r: Option<String>)
        requires
            ctx.wf(),
        ensures
            match requested(*ctx, self.param@) {
                Some(raw) => r matches Some(p) && p@ == joined(self.root_path@, normalized(raw)),
                None => r is None,
            },
    {
        match ctx.request.get::<Parameters>() {
            Some(params) => {
                match params.get(self.param.as_str()) {
                    Some(v) => Some(join_under(self.root_path.as_str(), v.as_str())),
                    None => None,
                }
            }
            None => None,
        }
    }

    /// Answers a request with method `method` for a file whose metadata is
    /// `meta`: 405 for a method other than GET and HEAD, 404 for anything
    /// but a regular file, and otherwise 200 with the file's length and,
    /// for GET, its contents.
    pub fn call(&self, method: Method, meta: Metadata) -> (r: Response)
        ensures
            match method {
                Method::Get => file_response(r, meta, false),
                Method::Head => file_response(r, meta, true),
                _ => method_rejected(r),
            },
    {
        match method {
            Method::Get => respond_file(meta, false),
            Method::Head => respond_file(meta, true),
            _ => {
                let mut allow: Vec<Method> = Vec::new();
                allow.push(Method::Get);
                allow.push(Method::Head);
                assert(allow@ =~= seq![Method::Get, Method::Head]);
                Response { status: STATUS_METHOD_NOT_ALLOWED, content_length: None, allow, body: Body::Empty }
            }
        }
    }
}

} // verus!
