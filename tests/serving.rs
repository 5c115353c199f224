use shio::context::{Context, Parameters, TypeMap};
use shio::file::{File, Metadata};
use shio::response::{
    default_catch, into_box, recover, Body, Handler, HandlerError, Method, Response,
};
use shio::static_files::StaticFile;
use shio::stream::{Producer, ReadOutcome, Signal, CHUNK_SIZE};

fn request(method: Method, filepath: Option<&str>) -> Context {
    let mut request = TypeMap::new();
    if let Some(fp) = filepath {
        let mut p = Parameters::new();
        p.push("filepath".to_string(), fp.to_string());
        request.insert::<Parameters>(p);
    }
    Context { method, path: String::new(), shared: TypeMap::new(), request }
}

#[test]
fn get_existing_file_streams_with_length() {
    let sf = StaticFile::new("static/", 2);
    let ctx = request(Method::Get, Some("a.txt"));
    assert_eq!(sf.target(&ctx), Some("static/a.txt".to_string()));
    let r = sf.call(Method::Get, Metadata::File(2));
    assert_eq!(r.status, 200);
    assert_eq!(r.content_length, Some(2));
    assert!(r.body == Body::Stream);
    assert!(r.allow.is_empty());
}

#[test]
fn head_existing_file_has_length_and_no_body() {
    let sf = StaticFile::new("static/", 2);
    let r = sf.call(Method::Head, Metadata::File(2));
    assert_eq!(r.status, 200);
    assert_eq!(r.content_length, Some(2));
    assert!(r.body == Body::Empty);
}

#[test]
fn get_missing_file_is_not_found() {
    let sf = StaticFile::new("static/", 2);
    let ctx = request(Method::Get, Some("missing.txt"));
    assert_eq!(sf.target(&ctx), Some("static/missing.txt".to_string()));
    let r = sf.call(Method::Get, Metadata::Missing);
    assert_eq!(r.status, 404);
    assert_eq!(r.content_length, None);
    assert!(r.body == Body::Empty);
}

#[test]
fn directory_is_not_found() {
    let sf = StaticFile::new("static/", 2);
    assert_eq!(sf.call(Method::Get, Metadata::NotAFile).status, 404);
    assert_eq!(sf.call(Method::Head, Metadata::NotAFile).status, 404);
}

#[test]
fn post_is_rejected_with_allowed_methods() {
    let sf = StaticFile::new("static/", 2);
    let r = sf.call(Method::Post, Metadata::File(2));
    assert_eq!(r.status, 405);
    assert!(r.allow == vec![Method::Get, Method::Head]);
    assert!(r.body == Body::Empty);
    assert_eq!(r.content_length, None);
}

#[test]
fn target_normalizes_and_needs_parameter() {
    let mut sf = StaticFile::new("static", 1);
    let ctx = request(Method::Get, Some("../../etc/passwd"));
    assert_eq!(sf.target(&ctx), Some("static/etc/passwd".to_string()));
    assert_eq!(sf.target(&request(Method::Get, None)), None);
    sf.set_retreive_path("other");
    assert_eq!(sf.target(&ctx), None);
}

#[test]
fn zero_length_file_has_zero_content_length() {
    let f = File::open_base("static/empty".to_string());
    let r = f.to_response(Metadata::File(0));
    assert_eq!(r.status, 200);
    assert_eq!(r.content_length, Some(0));
    let mut p = Producer::new();
    assert!(matches!(p.on_read(ReadOutcome::Data(Vec::new())), Signal::Close));
    assert!(p.is_done());
}

#[test]
fn file_head_responder() {
    let f = File::head_base("static/a.txt".to_string());
    let r = f.to_response(Metadata::File(2));
    assert_eq!((r.status, r.content_length), (200, Some(2)));
    assert!(r.body == Body::Empty);
    assert_eq!(f.to_response(Metadata::Missing).status, 404);
}

#[test]
fn chunks_come_out_in_read_order() {
    let data: Vec<u8> = (0..(CHUNK_SIZE * 2 + 100)).map(|i| (i % 251) as u8).collect();
    let mut p = Producer::new();
    let mut out: Vec<u8> = Vec::new();
    let mut chunks = 0;
    for piece in data.chunks(CHUNK_SIZE) {
        match p.on_read(ReadOutcome::Data(piece.to_vec())) {
            Signal::Chunk(c) => {
                assert_eq!(c.len(), piece.len());
                out.extend_from_slice(&c);
                chunks += 1;
            }
            _ => panic!("expected a chunk"),
        }
    }
    assert!(matches!(p.on_read(ReadOutcome::Data(Vec::new())), Signal::Close));
    assert_eq!(chunks, 3);
    assert_eq!(out, data);
}

#[test]
fn read_failure_ends_with_error() {
    let mut p = Producer::new();
    assert!(matches!(p.on_read(ReadOutcome::Data(vec![1, 2])), Signal::Chunk(_)));
    assert!(!p.is_done());
    assert!(matches!(p.on_read(ReadOutcome::Failed), Signal::Error));
    assert!(p.is_done());
}

#[test]
fn consumer_gone_stops_stream() {
    let mut p = Producer::new();
    p.on_send_failed();
    assert!(p.is_done());
}

struct Failing;

impl Handler for Failing {
    fn answers(&self, _ctx: Context, outcome: Result<Response, HandlerError>) -> bool {
        outcome.is_err()
    }

    fn call(&self, _ctx: &Context) -> Result<Response, HandlerError> {
        Err(HandlerError { message: "database password rejected".to_string() })
    }
}

struct Teapot;

impl Handler for Teapot {
    fn answers(&self, _ctx: Context, outcome: Result<Response, HandlerError>) -> bool {
        matches!(outcome, Ok(r) if r.status == 418)
    }

    fn call(&self, _ctx: &Context) -> Result<Response, HandlerError> {
        let mut r = Response::with_status(418);
        r.content_length = Some(5);
        Ok(r)
    }
}

#[test]
fn handler_error_becomes_internal_error() {
    let r = into_box(&Failing, &request(Method::Get, None));
    assert_eq!(r.status, 500);
    assert!(r.body == Body::Empty);
    assert_eq!(r.content_length, None);
    let d = default_catch(&HandlerError { message: "x".to_string() });
    assert_eq!(d.status, 500);
}

#[test]
fn handler_success_passes_through() {
    let r = into_box(&Teapot, &request(Method::Get, None));
    assert_eq!(r.status, 418);
    assert_eq!(r.content_length, Some(5));
    let r2 = recover(Ok(Response::with_status(204)));
    assert_eq!(r2.status, 204);
}
