//! Parsing a request off the wire: the start line, the header block and the body.
use vstd::prelude::*;

use crate::header::Header;
use crate::method::Method;
use crate::string_map::StringMap;
use crate::text::{
    ascii_lower, decimal_digits, lemma_decimal_round_trip, lower_char, chars_of, content_end, parse_decimal, spec_parse_decimal, strip_line_ending,
    substring, to_ascii_lower,
};

verus! {

/// Why a request could not be parsed; each one ends the connection.
#[derive(Clone, Copy, Debug, PartialEq, Eq, Structural)]
pub enum ParseError {
    /// The start line is not three tokens separated by single spaces.
    MalformedStartLine,
    /// The start line names a method the server does not know.
    UnknownMethod,
    /// A header line has no `": "` between its name and its value.
    MalformedHeader,
    /// The `content-length` header is not a decimal number that fits in memory.
    InvalidContentLength,
    /// The body handed over is not as long as `content-length` declares.
    BodyLengthMismatch,
}

/// `i` and `j` are the only spaces of `t`.
pub open spec fn two_spaces_at(t: Seq<char>, i: int, j: int) -> bool {
    &&& 0 <= i < j < t.len()
    &&& t[i] == ' '
    &&& t[j] == ' '
    &&& forall|k: int| 0 <= k < t.len() && #[trigger] t[k] == ' ' ==> k == i || k == j
}

/// The three tokens of a start line whose terminator is already removed.
pub open spec fn start_line_tokens(t: Seq<char>) -> Option<(Seq<char>, Seq<char>, Seq<char>)> {
    if exists|i: int, j: int| two_spaces_at(t, i, j) {
        let (i, j) = choose|i: int, j: int| two_spaces_at(t, i, j);
        Some((t.take(i), t.subrange(i + 1, j), t.skip(j + 1)))
    } else {
        None
    }
}

/// What a start line holds: its method, path and version, or why it is refused.
pub open spec fn spec_parse_start_line(line: Seq<char>) -> Result<
    (Method, Seq<char>, Seq<char>),
    ParseError,
> {
    match start_line_tokens(strip_line_ending(line)) {
        None => Err(ParseError::MalformedStartLine),
        Some((m, p, v)) => match Method::spec_from_token(m) {
            None => Err(ParseError::UnknownMethod),
            Some(method) => Ok((method, p, v)),
        },
    }
}

/// `": "` starts at position `i` of `t`.
pub open spec fn header_sep_at(t: Seq<char>, i: int) -> bool {
    0 <= i && i + 1 < t.len() && t[i] == ':' && t[i + 1] == ' '
}

/// `": "` starts at position `i` of `t` and nowhere before.
pub open spec fn first_header_sep(t: Seq<char>, i: int) -> bool {
    header_sep_at(t, i) && forall|k: int| 0 <= k < i ==> !#[trigger] header_sep_at(t, k)
}

/// The name and value of a header line, split at its first `": "`, without the
/// line's terminator.
pub open spec fn spec_parse_header(line: Seq<char>) -> Option<(Seq<char>, Seq<char>)> {
    let t = strip_line_ending(line);
    if exists|i: int| first_header_sep(t, i) {
        let i = choose|i: int| first_header_sep(t, i);
        Some((t.take(i), t.skip(i + 2)))
    } else {
        None
    }
}

/// The body length that a header block declares: zero without `content-length`,
/// else the header's value read as a decimal number.
pub open spec fn declared_length(headers: Map<Seq<char>, Seq<char>>) -> Option<nat> {
    if headers.contains_key(Header::ContentLength.spec_name()) {
        spec_parse_decimal(headers[Header::ContentLength.spec_name()])
    } else {
        Some(0)
    }
}

/// The first line of a request.
#[derive(Debug)]
pub struct StartLine {
    pub method: Method,
    pub path: String,
    pub version: String,
}

impl StartLine {
    /// Reads a start line, with or without its terminator.
    pub fn parse(line: &str) -> (r: Result<StartLine, ParseError>)
        ensures
            match spec_parse_start_line(line@) {
                Ok((m, p, v)) => r matches Ok(s) && s.method == m && s.path@ == p && s.version@
                    == v,
                Err(e) => r == Err::<StartLine, ParseError>(e),
            },
    {
        let chars = chars_of(line);
        let e = content_end(&chars);
        let ghost t = chars@.take(e as int);
        let mut count: usize = 0;
        let mut first: usize = 0;
        let mut second: usize = 0;
        let mut pos: usize = 0;
        while pos < e
            invariant
                chars@ == line@,
                e <= chars.len(),
                t == chars@.take(e as int),
                t == strip_line_ending(line@),
                pos <= e,
                count <= 2,
                count == 0 ==> forall|k: int| 0 <= k < pos ==> #[trigger] t[k] != ' ',
                count >= 1 ==> first < pos && t[first as int] == ' ',
                count == 1 ==> forall|k: int| 0 <= k < pos && #[trigger] t[k] == ' ' ==> k == first,
                count == 2 ==> first < second < pos && t[second as int] == ' ',
                count == 2 ==> forall|k: int|
                    0 <= k < pos && #[trigger] t[k] == ' ' ==> k == first || k == second,
            decreases e - pos,
        {
            if chars[pos] == ' ' {
                if count == 2 {
                    proof {
                        assert forall|a: int, b: int| !two_spaces_at(t, a, b) by {
                            if two_spaces_at(t, a, b) {
                                assert(t[first as int] == ' ');
                                assert(t[second as int] == ' ');
                                assert(t[pos as int] == ' ');
                            }
                        }
                    }
                    return Err(ParseError::MalformedStartLine);
                } else if count == 1 {
                    second = pos;
                } else {
                    first = pos;
                }
                count = count + 1;
            }
            pos = pos + 1;
        }
        if count < 2 {
            proof {
                assert forall|a: int, b: int| !two_spaces_at(t, a, b) by {
                    if two_spaces_at(t, a, b) {
                        assert(t[a] == ' ');
                        assert(t[b] == ' ');
                    }
                }
            }
            return Err(ParseError::MalformedStartLine);
        }
        proof {
            assert(two_spaces_at(t, first as int, second as int));
            let (i, j) = choose|i: int, j: int| two_spaces_at(t, i, j);
            assert(t[i] == ' ');
            assert(t[j] == ' ');
            assert(i == first && j == second);
        }
        let token = line.substring_char(0, first);
        proof {
            assert(token@ =~= t.take(first as int));
        }
        let method = match Method::from_token(token) {
            Some(m) => m,
            None => {
                return Err(ParseError::UnknownMethod);
            },
        };
        let path = substring(line, first + 1, second);
        let version = substring(line, second + 1, e);
        proof {
            assert(path@ =~= t.subrange(first + 1, second as int));
            assert(version@ =~= t.skip(second + 1));
        }
        Ok(StartLine { method, path, version })
    }
}

/// A parsed request.
#[derive(Debug)]
pub struct Request {
    pub method: Method,
    pub path: String,
    pub http_version: String,
    /// Header values by lower-case name.
    pub headers: StringMap,
    /// The values of the matched route's named segments; empty until routed.
    pub params: StringMap,
    pub body: Vec<u8>,
}

impl Request {
    /// Splits a header line at its first `": "` into name and value; the value
    /// loses the line's terminator.
    pub fn parse_header(header: &str) -> (r: Result<(&str, &str), ParseError>)
        ensures
            match spec_parse_header(header@) {
                Some((k, v)) => r matches Ok((a, b)) && a@ == k && b@ == v,
                None => r == Err::<(&str, &str), ParseError>(ParseError::MalformedHeader),
            },
    {
        let chars = chars_of(header);
        let e = content_end(&chars);
        let ghost t = chars@.take(e as int);
        let mut i: usize = 0;
        while i < e
            invariant
                i <= e,
                chars@ == header@,
                e <= chars.len(),
                t == chars@.take(e as int),
                t == strip_line_ending(header@),
                forall|k: int| 0 <= k < i ==> !#[trigger] header_sep_at(t, k),
            decreases e - i,
        {
            if i + 1 < e && chars[i] == ':' && chars[i + 1] == ' ' {
                proof {
                    assert(first_header_sep(t, i as int));
                    let j = choose|j: int| first_header_sep(t, j);
                    if j < i {
                        assert(!header_sep_at(t, j));
                    } else if i < j {
                        assert(!header_sep_at(t, i as int));
                    }
                }
                let key = header.substring_char(0, i);
                let value = header.substring_char(i + 2, e);
                proof {
                    assert(key@ =~= t.take(i as int));
                    assert(value@ =~= t.skip(i + 2));
                }
                return Ok((key, value));
            }
            i = i + 1;
        }
        proof {
            assert forall|j: int| !first_header_sep(t, j) by {
                if first_header_sep(t, j) {
                    assert(header_sep_at(t, j));
                }
            }
        }
        Err(ParseError::MalformedHeader)
    }
}

/// What the parser needs next from the connection.
#[derive(Clone, Copy, Debug, PartialEq, Eq, Structural)]
pub enum NextRead {
    /// Another line of the header block.
    Line,
    /// The body: exactly this many bytes.
    Body(usize),
}

/// Whether every header name in `headers` is in lower case.
pub open spec fn names_lower(headers: Map<Seq<char>, Seq<char>>) -> bool {
    forall|k: Seq<char>| #[trigger] headers.contains_key(k) ==> ascii_lower(k) == k
}

/// The header block after one more header line: the name is stored in lower
/// case, and a later line with the same name replaces an earlier one.
pub open spec fn spec_add_header(headers: Map<Seq<char>, Seq<char>>, line: Seq<char>) -> Option<
    Map<Seq<char>, Seq<char>>,
> {
    match spec_parse_header(line) {
        Some((k, v)) => Some(headers.insert(ascii_lower(k), v)),
        None => None,
    }
}

/// Lower-casing a name twice changes nothing more.
pub proof fn lemma_ascii_lower_idempotent(s: Seq<char>)
    ensures
        ascii_lower(ascii_lower(s)) == ascii_lower(s),
{
    assert forall|i: int| 0 <= i < s.len() implies #[trigger] ascii_lower(ascii_lower(s))[i]
        == ascii_lower(s)[i] by {
        let c = s[i];
        if 'A' <= c && c <= 'Z' {
            assert(('a' as u32) <= (lower_char(c) as u32) <= ('z' as u32));
        }
    }
    assert(ascii_lower(ascii_lower(s)) =~= ascii_lower(s));
}

/// Header names are stored in lower case whatever their case on the wire, and
/// of two header lines whose names differ at most in case, the later one's value
/// is the one kept.
pub proof fn lemma_header_names(
    headers: Map<Seq<char>, Seq<char>>,
    first: Seq<char>,
    second: Seq<char>,
)
    requires
        names_lower(headers),
        spec_parse_header(first) is Some,
        spec_parse_header(second) is Some,
        ascii_lower((spec_parse_header(first)->0).0) == ascii_lower((spec_parse_header(second)->0).0),
    ensures
        ({
            let once = spec_add_header(headers, first)->0;
            let twice = spec_add_header(once, second)->0;
            let name = ascii_lower((spec_parse_header(second)->0).0);
            &&& names_lower(once)
            &&& names_lower(twice)
            &&& twice.contains_key(name)
            &&& twice[name] == (spec_parse_header(second)->0).1
            &&& twice.dom() == once.dom()
        }),
{
    lemma_ascii_lower_idempotent((spec_parse_header(first)->0).0);
    lemma_ascii_lower_idempotent((spec_parse_header(second)->0).0);
    let once = spec_add_header(headers, first)->0;
    let twice = spec_add_header(once, second)->0;
    assert(twice.dom() =~= once.dom());
}

/// The header block a run of header lines gives, one line after the other;
/// `None` if one of them is not a header line.
pub open spec fn spec_header_block(lines: Seq<Seq<char>>) -> Option<Map<Seq<char>, Seq<char>>>
    decreases lines.len(),
{
    if lines.len() == 0 {
        Some(Map::empty())
    } else {
        match spec_header_block(lines.drop_last()) {
            Some(m) => spec_add_header(m, lines.last()),
            None => None,
        }
    }
}

/// The lower-case name of a header line.
pub open spec fn line_name(line: Seq<char>) -> Seq<char> {
    ascii_lower((spec_parse_header(line)->0).0)
}

/// The value of a header line.
pub open spec fn line_value(line: Seq<char>) -> Seq<char> {
    (spec_parse_header(line)->0).1
}

/// Line `j` is the last of `lines` whose name is `key`.
pub open spec fn is_last_named(lines: Seq<Seq<char>>, key: Seq<char>, j: int) -> bool {
    &&& 0 <= j < lines.len()
    &&& line_name(lines[j]) == key
    &&& forall|k: int| j < k < lines.len() ==> line_name(#[trigger] lines[k]) != key
}

/// A block of header lines stores every name in lower case, holds exactly the
/// names of its lines, and keeps for each name the value of the last line that
/// carries it, whatever the case of the names on the wire.
pub proof fn lemma_header_block(lines: Seq<Seq<char>>)
    requires
        forall|i: int| 0 <= i < lines.len() ==> #[trigger] spec_parse_header(lines[i]) is Some,
    ensures
        spec_header_block(lines) is Some,
        names_lower(spec_header_block(lines)->0),
        forall|key: Seq<char>|
            #[trigger] spec_header_block(lines)->0.contains_key(key) <==> exists|i: int|
                0 <= i < lines.len() && line_name(#[trigger] lines[i]) == key,
        forall|key: Seq<char>, j: int|
            #[trigger] is_last_named(lines, key, j) ==> spec_header_block(lines)->0[key]
                == line_value(lines[j]),
    decreases lines.len(),
{
    if lines.len() > 0 {
        let init = lines.drop_last();
        let last = lines.last();
        assert forall|i: int| 0 <= i < init.len() implies #[trigger] spec_parse_header(
            init[i],
        ) is Some by {
            assert(init[i] == lines[i]);
        }
        lemma_header_block(init);
        let prev = spec_header_block(init)->0;
        let block = spec_header_block(lines)->0;
        assert(spec_parse_header(lines[lines.len() - 1]) is Some);
        lemma_ascii_lower_idempotent((spec_parse_header(last)->0).0);
        assert(block == prev.insert(line_name(last), line_value(last)));
        assert forall|key: Seq<char>| #[trigger] block.contains_key(key) <==> exists|i: int|
            0 <= i < lines.len() && line_name(#[trigger] lines[i]) == key by {
            if block.contains_key(key) && key != line_name(last) {
                assert(prev.contains_key(key));
                let i = choose|i: int| 0 <= i < init.len() && line_name(#[trigger] init[i]) == key;
                assert(lines[i] == init[i]);
            }
            if block.contains_key(key) && key == line_name(last) {
                assert(lines[lines.len() - 1] == last);
            }
            if exists|i: int| 0 <= i < lines.len() && line_name(#[trigger] lines[i]) == key {
                let i = choose|i: int| 0 <= i < lines.len() && line_name(#[trigger] lines[i]) == key;
                if i < init.len() {
                    assert(init[i] == lines[i]);
                }
            }
        }
        assert forall|key: Seq<char>, j: int| #[trigger] is_last_named(lines, key, j) implies block[key]
            == line_value(lines[j]) by {
            if j < lines.len() - 1 {
                assert(line_name(lines[lines.len() - 1]) != key);
                assert(init[j] == lines[j]);
                assert forall|k: int| j < k < init.len() implies line_name(#[trigger] init[k]) != key by {
                    assert(init[k] == lines[k]);
                    assert(line_name(lines[k]) != key);
                }
                assert(is_last_named(init, key, j));
            }
        }
    }
}

/// A header block whose last `content-length` line gives `n` in decimal declares
/// a body of `n` bytes, which `RequestHead::into_request` then takes whole and
/// alone.
pub proof fn lemma_declared_length_of_block(lines: Seq<Seq<char>>, j: int, n: nat)
    requires
        forall|i: int| 0 <= i < lines.len() ==> #[trigger] spec_parse_header(lines[i]) is Some,
        is_last_named(lines, Header::ContentLength.spec_name(), j),
        line_value(lines[j]) == decimal_digits(n),
    ensures
        declared_length(spec_header_block(lines)->0) == Some(n),
{
    lemma_header_block(lines);
    lemma_decimal_round_trip(n);
}

/// A header block without a `content-length` line declares an empty body.
pub proof fn lemma_no_declared_length(lines: Seq<Seq<char>>)
    requires
        forall|i: int| 0 <= i < lines.len() ==> #[trigger] spec_parse_header(lines[i]) is Some,
        forall|i: int|
            0 <= i < lines.len() ==> line_name(#[trigger] lines[i]) != Header::ContentLength.spec_name(),
    ensures
        declared_length(spec_header_block(lines)->0) == Some(0nat),
{
    lemma_header_block(lines);
    let block = spec_header_block(lines)->0;
    if block.contains_key(Header::ContentLength.spec_name()) {
        let i = choose|i: int|
            0 <= i < lines.len() && line_name(#[trigger] lines[i]) == Header::ContentLength.spec_name();
        assert(line_name(lines[i]) != Header::ContentLength.spec_name());
    }
}

/// A request whose start line has been read and whose header block is being read.
#[derive(Debug)]
pub struct RequestHead {
    pub start: StartLine,
    pub headers: StringMap,
}

impl RequestHead {
    pub fn new(start: StartLine) -> (r: RequestHead)
        ensures
            r.start == start,
            r.headers@ == Map::<Seq<char>, Seq<char>>::empty(),
            names_lower(r.headers@),
    {
        RequestHead { start, headers: StringMap::new() }
    }

    /// The body length the header block declares so far.
    pub fn body_length(&self) -> (r: Result<usize, ParseError>)
        ensures
            r is Ok <==> declared_length(self.headers@) is Some
                && declared_length(self.headers@)->0 <= usize::MAX,
            r matches Ok(n) ==> declared_length(self.headers@) == Some(n as nat),
            r is Err ==> r == Err::<usize, ParseError>(ParseError::InvalidContentLength),
    {
        match self.headers.get(Header::ContentLength.to_str()) {
            None => Ok(0),
            Some(v) => match parse_decimal(v.as_str()) {
                Some(n) => Ok(n),
                None => Err(ParseError::InvalidContentLength),
            },
        }
    }

    /// Takes one line of the header block. A blank line ends the block and asks
    /// for the declared number of body bytes; any other line is stored as a header.
    pub fn feed_line(&mut self, line: &str) -> (r: Result<NextRead, ParseError>)
        ensures
            names_lower(old(self).headers@) ==> names_lower(final(self).headers@),
            strip_line_ending(line@).len() == 0 ==> {
                &&& *final(self) == *old(self)
                &&& match declared_length(old(self).headers@) {
                    Some(n) => if n <= usize::MAX {
                        r == Ok::<NextRead, ParseError>(NextRead::Body(n as usize))
                    } else {
                        r == Err::<NextRead, ParseError>(ParseError::InvalidContentLength)
                    },
                    None => r == Err::<NextRead, ParseError>(ParseError::InvalidContentLength),
                }
            },
            strip_line_ending(line@).len() != 0 ==> match spec_add_header(old(self).headers@, line@) {
                Some(h) => r == Ok::<NextRead, ParseError>(NextRead::Line) && final(self).start
                    == old(self).start && final(self).headers@ == h,
                None => r == Err::<NextRead, ParseError>(ParseError::MalformedHeader)
                    && *final(self) == *old(self),
            },
    {
        let chars = chars_of(line);
        if content_end(&chars) == 0 {
            return match self.body_length() {
                Ok(n) => Ok(NextRead::Body(n)),
                Err(e) => Err(e),
            };
        }
        match Request::parse_header(line) {
            Ok((name, value)) => {
                proof {
                    lemma_ascii_lower_idempotent(name@);
                }
                self.headers.insert(to_ascii_lower(name), value.to_owned());
                Ok(NextRead::Line)
            },
            Err(e) => Err(e),
        }
    }

    /// The request, once its body has been read; the body must be exactly as long
    /// as the header block declares.
    pub fn into_request(self, body: Vec<u8>) -> (r: Result<Request, ParseError>)
        ensures
            r is Ok <==> declared_length(self.headers@) == Some(body@.len()),
            r matches Ok(req) ==> {
                &&& req.method == self.start.method
                &&& req.path == self.start.path
                &&& req.http_version == self.start.version
                &&& req.headers == self.headers
                &&& req.params@ == Map::<Seq<char>, Seq<char>>::empty()
                &&& req.body == body
            },
            r matches Err(e) ==> if declared_length(self.headers@) matches Some(n) && n
                <= usize::MAX {
                e == ParseError::BodyLengthMismatch
            } else {
                e == ParseError::InvalidContentLength
            },
    {
        let len = body.len();
        let n = match self.body_length() {
            Ok(n) => n,
            Err(e) => {
                return Err(e);
            },
        };
        if len != n {
            return Err(ParseError::BodyLengthMismatch);
        }
        let RequestHead { start, headers } = self;
        Ok(
            Request {
                method: start.method,
                path: start.path,
                http_version: start.version,
                headers,
                params: StringMap::new(),
                body,
            },
        )
    }
}

} // verus!
