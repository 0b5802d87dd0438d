//! The server's route handlers, and the decisions of those that touch files.
//!
//! Reading and writing files is left to the caller: the handlers here say which
//! file to use and build the response from what happened.
use vstd::prelude::*;
use vstd::string::StringExecFns;

use crate::content_type::ContentType;
use crate::encoding::{spec_negotiate, Encoding};
use crate::header::Header;
use crate::request::Request;
use crate::response::{default_parts, spec_build, spec_built, Response, ResponseParts};
use crate::status_code::StatusCode;
use crate::text::push_str;
use vstd::utf8::encode_utf8;

verus! {

pub open spec fn message_param() -> Seq<char> {
    seq!['m', 'e', 's', 's', 'a', 'g', 'e']
}

pub open spec fn file_name_param() -> Seq<char> {
    seq!['f', 'i', 'l', 'e', '_', 'n', 'a', 'm', 'e']
}

/// The UTF-8 bytes of the value stored under `key`, if any.
pub open spec fn text_body(m: Map<Seq<char>, Seq<char>>, key: Seq<char>) -> Option<Seq<u8>> {
    if m.contains_key(key) {
        Some(encode_utf8(m[key]))
    } else {
        None
    }
}

fn utf8_bytes(s: &str) -> (r: Vec<u8>)
    ensures
        r@ == encode_utf8(s@),
{
    let mut out: Vec<u8> = Vec::new();
    push_str(&mut out, s);
    assert(out@ =~= encode_utf8(s@));
    out
}

/// `GET /`: an empty `200 OK`.
pub fn root(_request: Request) -> (r: Response)
    ensures
        r@ == spec_build(default_parts(), false),
{
    Response::builder().build()
}

/// `GET /echo/:message`: the message as a plain-text body, in the encoding that
/// the request's `accept-encoding` negotiates.
pub fn echo_route(request: Request) -> (r: Response)
    ensures
        r@ == spec_built(
            ResponseParts {
                body: text_body(request.params@, message_param()),
                encoding: if request.headers@.contains_key(Header::AcceptEncoding.spec_name()) {
                    spec_negotiate(request.headers@[Header::AcceptEncoding.spec_name()])
                } else {
                    None
                },
                ..default_parts()
            },
        ),
{
    proof {
        reveal_strlit("message");
        assert("message"@ =~= message_param());
    }
    let body = match request.params.get("message") {
        Some(m) => Some(utf8_bytes(m.as_str())),
        None => None,
    };
    let accept_encoding = match request.headers.get(Header::AcceptEncoding.to_str()) {
        Some(v) => Encoding::negotiate(v.as_str()),
        None => None,
    };
    let mut builder = Response::builder().body(body).accept_encoding(accept_encoding);
    builder.build()
}

/// `GET /user-agent`: the request's `user-agent` value as a plain-text body.
pub fn user_agent(request: Request) -> (r: Response)
    ensures
        r@ == spec_build(
            ResponseParts {
                body: text_body(request.headers@, Header::UserAgent.spec_name()),
                ..default_parts()
            },
            false,
        ),
{
    let body = match request.headers.get(Header::UserAgent.to_str()) {
        Some(v) => Some(utf8_bytes(v.as_str())),
        None => None,
    };
    Response::builder().body(body).build()
}

/// The path of the file named by the request's `file_name` parameter, under
/// `directory`.
pub open spec fn spec_file_path(directory: Option<String>, params: Map<Seq<char>, Seq<char>>) -> Option<
    Seq<char>,
> {
    match directory {
        Some(d) => if params.contains_key(file_name_param()) {
            Some(d@ + seq!['/'] + params[file_name_param()])
        } else {
            None
        },
        None => None,
    }
}

/// The path of the file a `/files/:file_name` request names, under `directory`.
pub fn file_path(directory: &Option<String>, request: &Request) -> (r: Option<String>)
    ensures
        match spec_file_path(*directory, request.params@) {
            Some(p) => r matches Some(s) && s@ == p,
            None => r is None,
        },
{
    proof {
        reveal_strlit("file_name");
        reveal_strlit("/");
        assert("file_name"@ =~= file_name_param());
        assert("/"@ =~= seq!['/']);
    }
    match directory {
        Some(d) => match request.params.get("file_name") {
            Some(name) => {
                let mut path = String::from_str(d.as_str());
                path.append("/");
                path.append(name.as_str());
                Some(path)
            },
            None => None,
        },
        None => None,
    }
}

/// A file to write: where, and what.
pub struct FileWrite {
    pub path: String,
    pub contents: Vec<u8>,
}

/// For `POST /files/:file_name`: the request's body, to be written to the file
/// it names under `directory`; `None` when there is no directory or no name.
pub fn file_write_plan(directory: &Option<String>, request: Request) -> (r: Option<FileWrite>)
    ensures
        match spec_file_path(*directory, request.params@) {
            Some(p) => r matches Some(w) && w.path@ == p && w.contents == request.body,
            None => r is None,
        },
{
    match file_path(directory, &request) {
        Some(path) => Some(FileWrite { path, contents: request.body }),
        None => None,
    }
}

/// The answer to `GET /files/:file_name`, given the file's contents: `404 Not
/// Found` when it could not be read, else `200 OK` with the contents as an
/// octet stream.
pub fn file_read_response(contents: Option<Vec<u8>>) -> (r: Response)
    ensures
        match contents {
            Some(c) => r@ == spec_build(
                ResponseParts {
                    content_type: ContentType::OctetStream,
                    body: Some(c@),
                    ..default_parts()
                },
                false,
            ),
            None => r@ == spec_build(
                ResponseParts { status_code: StatusCode::NotFound, ..default_parts() },
                false,
            ),
        },
{
    match contents {
        Some(c) => Response::builder().status_code(StatusCode::OK).content_type(
            ContentType::OctetStream,
        ).body(Some(c)).build(),
        None => Response::builder().status_code(StatusCode::NotFound).build(),
    }
}

/// The answer to `POST /files/:file_name`: `201 Created` once the request's body
/// has been written, `500 Internal Server Error` when there was nowhere to write
/// it or the write failed.
pub fn file_write_response(written: bool) -> (r: Response)
    ensures
        r@ == spec_build(
            ResponseParts {
                status_code: if written {
                    StatusCode::Created
                } else {
                    StatusCode::InternalServerError
                },
                ..default_parts()
            },
            false,
        ),
{
    let status = if written {
        StatusCode::Created
    } else {
        StatusCode::InternalServerError
    };
    Response::builder().status_code(status).build()
}

} // verus!
