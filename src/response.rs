//! Building responses and writing them out as bytes.
use vstd::prelude::*;

use std::io::Write;

use flate2::write::GzEncoder;
use flate2::Compression;

use crate::content_type::ContentType;
use crate::encoding::Encoding;
use crate::header::Header;
use crate::status_code::StatusCode;
use crate::text::{decimal_digits, lemma_encode_utf8_concat, push_decimal, push_str};
use vstd::utf8::encode_utf8;

verus! {

/// The gzip member that flate2 writes for `data` at its default level.
pub uninterp spec fn gzip_of(data: Seq<u8>) -> Seq<u8>;

/// Whether flate2 reports an error while compressing `data` as in `gzip_of`.
pub uninterp spec fn gzip_fails(data: Seq<u8>) -> bool;

/// Relies on `flate2::write::GzEncoder` at `Compression::default()`, finished
/// into a `Vec`: whether it fails, and what it writes, depend on the input bytes
/// alone. Should the encoder report an error, nothing is returned.
#[verifier::external_body]
fn gzip(data: &[u8]) -> (r: Option<Vec<u8>>)
    ensures
        r is None <==> gzip_fails(data@),
        r matches Some(z) ==> z@ == gzip_of(data@),
{
    let mut encoder = GzEncoder::new(Vec::new(), Compression::default());
    encoder.write_all(data).ok()?;
    encoder.finish().ok()
}

/// What a response or a response under construction holds.
pub struct ResponseParts {
    pub status_code: StatusCode,
    pub content_type: ContentType,
    pub encoding: Option<Encoding>,
    pub body: Option<Seq<u8>>,
}

pub open spec fn crlf() -> Seq<char> {
    seq!['\r', '\n']
}

/// One header line: the name, `": "`, the value and the terminator.
pub open spec fn header_line(name: Seq<char>, value: Seq<char>) -> Seq<char> {
    name + seq![':', ' '] + value + crlf()
}

/// The status line, the `content-type` line and, when an encoding was applied,
/// the `content-encoding` line.
pub open spec fn head_lines(p: ResponseParts) -> Seq<char> {
    seq!['H', 'T', 'T', 'P', '/', '1', '.', '1', ' '] + p.status_code.spec_status_line() + crlf()
        + header_line(Header::ContentType.spec_name(), p.content_type.spec_text()) + match p.encoding {
        Some(e) => header_line(Header::ContentEncoding.spec_name(), e.spec_text()),
        None => Seq::<char>::empty(),
    }
}

/// The `content-length` line for a body of `n` bytes.
pub open spec fn length_line(n: nat) -> Seq<char> {
    header_line(Header::ContentLength.spec_name(), decimal_digits(n))
}

/// The bytes of a response on the wire: the head, a blank line, then the body.
/// `content-length` is present exactly when there is a body, and gives its length.
pub open spec fn spec_encode(p: ResponseParts) -> Seq<u8> {
    match p.body {
        Some(b) => encode_utf8(head_lines(p) + length_line(b.len()) + crlf()) + b,
        None => encode_utf8(head_lines(p) + crlf()),
    }
}

/// The response that a builder holding `b` produces. With `compressed`, a body
/// that asked for an encoding is replaced by its encoded form and the encoding
/// is announced; otherwise, or without a body, no encoding is announced.
pub open spec fn spec_build(b: ResponseParts, compressed: bool) -> ResponseParts {
    let applied = compressed && b.body is Some && b.encoding is Some;
    ResponseParts {
        status_code: b.status_code,
        content_type: b.content_type,
        encoding: if applied {
            b.encoding
        } else {
            None
        },
        body: if applied {
            Some(gzip_of(b.body->0))
        } else {
            b.body
        },
    }
}

/// The response that building `b` gives: a body that asked for an encoding is
/// compressed unless the compressor fails on it.
pub open spec fn spec_built(b: ResponseParts) -> ResponseParts {
    spec_build(b, b.body is Some && !gzip_fails(b.body->0))
}

/// The builder that `Response::builder` starts from: `200 OK`, plain text, no
/// encoding, no body.
pub open spec fn default_parts() -> ResponseParts {
    ResponseParts {
        status_code: StatusCode::OK,
        content_type: ContentType::Plain,
        encoding: None,
        body: None,
    }
}

/// A built response that has a body declares in `content-length` the length of
/// the bytes that follow its head: the body as given when no encoding was
/// applied, the gzip-compressed body when it was.
pub proof fn lemma_declared_length_is_payload_length(b: ResponseParts, compressed: bool)
    requires
        b.body is Some,
    ensures
        ({
            let r = spec_build(b, compressed);
            let payload = r.body->0;
            &&& spec_encode(r) == encode_utf8(head_lines(r) + length_line(payload.len()) + crlf())
                + payload
            &&& compressed && b.encoding is Some ==> payload == gzip_of(b.body->0) && r.encoding
                == b.encoding
            &&& !compressed || b.encoding is None ==> payload == b.body->0 && r.encoding is None
        }),
{
}

/// A response ready to be written.
pub struct Response {
    body: Option<Vec<u8>>,
    status_code: StatusCode,
    content_type: ContentType,
    accept_encoding: Option<Encoding>,
}

impl Response {
    /// An encoding is announced only for a body it was applied to.
    #[verifier::type_invariant]
    spec fn consistent(self) -> bool {
        self.accept_encoding is Some ==> self.body is Some
    }

    pub fn builder() -> (r: ResponseBuilder)
        ensures
            r@ == default_parts(),
    {
        ResponseBuilder::new()
    }

    /// The bytes to send.
    pub fn as_byte(&self) -> (r: Vec<u8>)
        ensures
            r@ == spec_encode(self@),
    {
        proof {
            use_type_invariant(self);
        }
        let mut out: Vec<u8> = Vec::new();
        proof {
            reveal_strlit("HTTP/1.1 ");
            reveal_strlit("\r\n");
            reveal_strlit(": ");
        }
        push_str(&mut out, "HTTP/1.1 ");
        push_str(&mut out, self.status_code.status_line());
        push_str(&mut out, "\r\n");
        push_header(&mut out, Header::ContentType.to_str(), self.content_type.to_str());
        let ghost mut text = seq!['H', 'T', 'T', 'P', '/', '1', '.', '1', ' ']
            + self.status_code.spec_status_line() + crlf() + header_line(
            Header::ContentType.spec_name(),
            self.content_type.spec_text(),
        );
        proof {
            lemma_encode_utf8_concat(
                seq!['H', 'T', 'T', 'P', '/', '1', '.', '1', ' '],
                self.status_code.spec_status_line(),
            );
            lemma_encode_utf8_concat(
                seq!['H', 'T', 'T', 'P', '/', '1', '.', '1', ' '] + self.status_code.spec_status_line(),
                crlf(),
            );
            lemma_encode_utf8_concat(
                seq!['H', 'T', 'T', 'P', '/', '1', '.', '1', ' '] + self.status_code.spec_status_line()
                    + crlf(),
                header_line(Header::ContentType.spec_name(), self.content_type.spec_text()),
            );
            assert("HTTP/1.1 "@ =~= seq!['H', 'T', 'T', 'P', '/', '1', '.', '1', ' ']);
            assert("\r\n"@ =~= crlf());
            assert(out@ =~= encode_utf8(text));
        }
        match &self.accept_encoding {
            Some(e) => {
                push_header(&mut out, Header::ContentEncoding.to_str(), e.to_str());
                proof {
                    let line = header_line(Header::ContentEncoding.spec_name(), e.spec_text());
                    lemma_encode_utf8_concat(text, line);
                    text = text + line;
                }
            },
            None => {
                assert(text + Seq::<char>::empty() =~= text);
            },
        }
        assert(text == head_lines(self@));
        let ghost head = text;
        match &self.body {
            Some(b) => {
                let n = b.len();
                push_str(&mut out, Header::ContentLength.to_str());
                push_str(&mut out, ": ");
                push_decimal(&mut out, n);
                push_str(&mut out, "\r\n");
                push_str(&mut out, "\r\n");
                proof {
                    let name = Header::ContentLength.spec_name();
                    let digits = decimal_digits(n as nat);
                    lemma_encode_utf8_concat(name, seq![':', ' ']);
                    lemma_encode_utf8_concat(name + seq![':', ' '], digits);
                    lemma_encode_utf8_concat(name + seq![':', ' '] + digits, crlf());
                    lemma_encode_utf8_concat(head, length_line(n as nat));
                    lemma_encode_utf8_concat(head + length_line(n as nat), crlf());
                    assert(": "@ =~= seq![':', ' ']);
                    assert(out@ =~= encode_utf8(head + length_line(b@.len()) + crlf()));
                }
                let ghost before = out@;
                out.extend_from_slice(b.as_slice());
                proof {
                    assert(out@ =~= before + b@);
                    assert(self@.body == Some(b@));
                }
            },
            None => {
                push_str(&mut out, "\r\n");
                proof {
                    lemma_encode_utf8_concat(head, crlf());
                    assert(self@.body is None);
                }
            },
        }
        out
    }
}

/// Appends one header line.
fn push_header(out: &mut Vec<u8>, name: &str, value: &str)
    ensures
        final(out)@ == old(out)@ + encode_utf8(header_line(name@, value@)),
{
    proof {
        reveal_strlit(": ");
        reveal_strlit("\r\n");
    }
    push_str(out, name);
    push_str(out, ": ");
    push_str(out, value);
    push_str(out, "\r\n");
    proof {
        lemma_encode_utf8_concat(name@, seq![':', ' ']);
        lemma_encode_utf8_concat(name@ + seq![':', ' '], value@);
        lemma_encode_utf8_concat(name@ + seq![':', ' '] + value@, crlf());
        assert(": "@ =~= seq![':', ' ']);
        assert("\r\n"@ =~= crlf());
        assert(final(out)@ =~= old(out)@ + encode_utf8(header_line(name@, value@)));
    }
}

impl View for Response {
    type V = ResponseParts;

    closed spec fn view(&self) -> ResponseParts {
        ResponseParts {
            status_code: self.status_code,
            content_type: self.content_type,
            encoding: self.accept_encoding,
            body: match self.body {
                Some(b) => Some(b@),
                None => None,
            },
        }
    }
}

/// Collects the parts of a response before it is built.
pub struct ResponseBuilder {
    status_code: StatusCode,
    body: Option<Vec<u8>>,
    content_type: ContentType,
    accept_encoding: Option<Encoding>,
}

impl View for ResponseBuilder {
    type V = ResponseParts;

    closed spec fn view(&self) -> ResponseParts {
        ResponseParts {
            status_code: self.status_code,
            content_type: self.content_type,
            encoding: self.accept_encoding,
            body: match self.body {
                Some(b) => Some(b@),
                None => None,
            },
        }
    }
}

impl ResponseBuilder {
    fn new() -> (r: Self)
        ensures
            r@ == default_parts(),
    {
        ResponseBuilder {
            status_code: StatusCode::OK,
            body: None,
            content_type: ContentType::Plain,
            accept_encoding: None,
        }
    }

    /// Asks for the body to be sent with `accept_encoding` applied.
    pub fn accept_encoding(self, accept_encoding: Option<Encoding>) -> (r: Self)
        ensures
            r@ == (ResponseParts { encoding: accept_encoding, ..self@ }),
    {
        ResponseBuilder { accept_encoding, ..self }
    }

    pub fn status_code(self, status_code: StatusCode) -> (r: Self)
        ensures
            r@ == (ResponseParts { status_code, ..self@ }),
    {
        ResponseBuilder { status_code, ..self }
    }

    pub fn body(self, body: Option<Vec<u8>>) -> (r: Self)
        ensures
            r@ == (ResponseParts {
                body: match body {
                    Some(b) => Some(b@),
                    None => None,
                },
                ..self@
            }),
    {
        ResponseBuilder { body, ..self }
    }

    pub fn content_type(self, content_type: ContentType) -> (r: Self)
        ensures
            r@ == (ResponseParts { content_type, ..self@ }),
    {
        ResponseBuilder { content_type, ..self }
    }

    /// The finished response. A body that asked for an encoding is compressed
    /// before its length is taken; should compression fail, the body goes out as
    /// it is, with no encoding announced.
    pub fn build(&mut self) -> (r: Response)
        ensures
            *final(self) == *old(self),
            r@ == spec_built(old(self)@),
            old(self)@.body is None || old(self)@.encoding is None ==> r@ == spec_build(
                old(self)@,
                false,
            ),
    {
        let ghost mut compressed = false;
        let (body, accept_encoding) = match &self.body {
            None => (None, None),
            Some(b) => match self.accept_encoding {
                None => (Some(b.clone()), None),
                Some(Encoding::Gzip) => match gzip(b.as_slice()) {
                    Some(z) => {
                        proof {
                            compressed = true;
                        }
                        (Some(z), Some(Encoding::Gzip))
                    },
                    None => (Some(b.clone()), None),
                },
            },
        };
        assert(compressed == (self@.body is Some && self@.encoding is Some && !gzip_fails(
            self@.body->0,
        )));
        let r = Response {
            body,
            status_code: self.status_code,
            content_type: self.content_type,
            accept_encoding,
        };
        proof {
            let expected = spec_built(self@);
            match (r@.body, expected.body) {
                (Some(x), Some(y)) => {
                    assert(x =~= y);
                },
                _ => {},
            }
            if compressed {
                assert(r@.encoding == Some(Encoding::Gzip));
                assert(expected.encoding == Some(Encoding::Gzip));
            } else {
                assert(r@.encoding is None);
                assert(expected.encoding is None);
            }
            assert(r@ == expected);
        }
        r
    }
}

} // verus!
