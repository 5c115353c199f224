//! A file responder: answers with a file's length and, unless only the
//! head was asked for, a stream of its bytes.
use vstd::prelude::*;
use crate::path::{join_under, joined, normalize_path, normalized};
use crate::response::{Body, Response, STATUS_NOT_FOUND, STATUS_OK};

verus! {

/// What a metadata query found at a path.
#[derive(Clone, Copy, PartialEq, Eq, Structural)]
pub enum Metadata {
    /// Nothing there, or the query failed.
    Missing,
    /// Something that is not a regular file, such as a directory.
    NotAFile,
    /// A regular file of the given length in bytes.
    File(u64),
}

/// Status 200 with the file's length and the given body.
pub open spec fn found(r: Response, len: u64, body: Body) -> bool {
    &&& r.status == STATUS_OK
    &&& r.content_length == Some(len)
    &&& r.allow@.len() == 0
    &&& r.body == body
}

/// The response for a file whose metadata is `meta`: 404 unless it is a
/// regular file; otherwise 200 with its length, and a streamed body unless
/// `head` is set.
pub open spec fn file_response(r: Response, meta: Metadata, head: bool) -> bool {
    match meta {
        Metadata::File(len) => found(r, len, if head { Body::Empty } else { Body::Stream }),
        _ => r.is_bare(STATUS_NOT_FOUND),
    }
}

pub fn respond_file(meta: Metadata, head: bool) -> (r: Response)
    ensures
        file_response(r, meta, head),
{
    match meta {
        Metadata::File(len) => Response {
            status: STATUS_OK,
            content_length: Some(len),
            allow: Vec::new(),
            body: if head {
                Body::Empty
            } else {
                Body::Stream
            },
        },
        _ => Response::with_status(STATUS_NOT_FOUND),
    }
}

/// A file to answer with, by its full path.
pub struct File {
    pub filename: String,
    pub head: bool,
}

impl File {
    /// Answers with the head of `filename` only.
    pub fn head_base(filename: String) -> (r: File)
        ensures
            r.filename == filename,
            r.head,
    {
        File { filename, head: true }
    }

    /// Answers with the contents of `filename`.
    pub fn open_base(filename: String) -> (r: File)
        ensures
            r.filename == filename,
            !r.head,
    {
        File { filename, head: false }
    }

    /// Answers with the head of `filepath`, normalized, under `root_dir`.
    pub fn head(root_dir: &str, filepath: &str) -> (r: File)
        ensures
            r.filename@ == joined(root_dir@, normalized(filepath@)),
            r.head,
    {
        File::head_base(join_under(root_dir, filepath))
    }

    /// Answers with the contents of `filepath`, normalized, under
    /// `root_dir`.
    pub fn open(root_dir: &str, filepath: &str) -> (r: File)
        ensures
            r.filename@ == joined(root_dir@, normalized(filepath@)),
            !r.head,
    {
        File::open_base(join_under(root_dir, filepath))
    }

    /// The normalized form of `filepath`: no empty, `.` or `..` segment,
    /// and never above its start.
    pub fn normalize(filepath: &str) -> (r: String)
        ensures
            r@ == normalized(filepath@),
    {
        normalize_path(filepath)
    }

    /// The response once the metadata of `filename` is known.
    pub fn to_response(&self, meta: Metadata) -> (r: Response)
        ensures
            file_response(r, meta, self.head),
    {
        respond_file(meta, self.head)
    }
}

} // verus!
