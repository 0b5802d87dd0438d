//! The header names the server reads or writes.
use vstd::prelude::*;

use crate::text::{ascii_lower, str_eq, to_ascii_lower};

verus! {

/// A header name known to the server.
#[derive(Clone, Copy, Debug, PartialEq, Eq, Structural)]
pub enum Header {
    ContentType,
    AcceptEncoding,
    ContentLength,
    ContentEncoding,
    UserAgent,
    Host,
}

impl Header {
    /// The lower-case name under which the header travels.
    pub open spec fn spec_name(self) -> Seq<char> {
        match self {
            Header::ContentType => seq!['c', 'o', 'n', 't', 'e', 'n', 't', '-', 't', 'y', 'p', 'e'],
            Header::AcceptEncoding => seq!['a', 'c', 'c', 'e', 'p', 't', '-', 'e', 'n', 'c', 'o', 'd', 'i', 'n', 'g'],
            Header::ContentLength => seq!['c', 'o', 'n', 't', 'e', 'n', 't', '-', 'l', 'e', 'n', 'g', 't', 'h'],
            Header::ContentEncoding => seq!['c', 'o', 'n', 't', 'e', 'n', 't', '-', 'e', 'n', 'c', 'o', 'd', 'i', 'n', 'g'],
            Header::UserAgent => seq!['u', 's', 'e', 'r', '-', 'a', 'g', 'e', 'n', 't'],
            Header::Host => seq!['h', 'o', 's', 't'],
        }
    }

    /// The header whose name is `name`, which must already be in lower case.
    pub open spec fn spec_from_lower(name: Seq<char>) -> Option<Header> {
        if name == Header::ContentType.spec_name() {
            Some(Header::ContentType)
        } else if name == Header::AcceptEncoding.spec_name() {
            Some(Header::AcceptEncoding)
        } else if name == Header::ContentLength.spec_name() {
            Some(Header::ContentLength)
        } else if name == Header::ContentEncoding.spec_name() {
            Some(Header::ContentEncoding)
        } else if name == Header::UserAgent.spec_name() {
            Some(Header::UserAgent)
        } else if name == Header::Host.spec_name() {
            Some(Header::Host)
        } else {
            None
        }
    }

    pub fn to_str(&self) -> (r: &'static str)
        ensures
            r@ == self.spec_name(),
    {
        match self {
            Header::ContentType => {
                proof {
                    reveal_strlit("content-type");
                }
                "content-type"
            },
            Header::AcceptEncoding => {
                proof {
                    reveal_strlit("accept-encoding");
                }
                "accept-encoding"
            },
            Header::ContentLength => {
                proof {
                    reveal_strlit("content-length");
                }
                "content-length"
            },
            Header::ContentEncoding => {
                proof {
                    reveal_strlit("content-encoding");
                }
                "content-encoding"
            },
            Header::UserAgent => {
                proof {
                    reveal_strlit("user-agent");
                }
                "user-agent"
            },
            Header::Host => {
                proof {
                    reveal_strlit("host");
                }
                "host"
            },
        }
    }

    /// The header named `name`, compared without regard to ASCII case.
    pub fn from_name(name: &str) -> (r: Option<Header>)
        ensures
            r == Header::spec_from_lower(ascii_lower(name@)),
    {
        let lowered = to_ascii_lower(name);
        let s = lowered.as_str();
        if str_eq(s, Header::ContentType.to_str()) {
            return Some(Header::ContentType);
        }
        if str_eq(s, Header::AcceptEncoding.to_str()) {
            return Some(Header::AcceptEncoding);
        }
        if str_eq(s, Header::ContentLength.to_str()) {
            return Some(Header::ContentLength);
        }
        if str_eq(s, Header::ContentEncoding.to_str()) {
            return Some(Header::ContentEncoding);
        }
        if str_eq(s, Header::UserAgent.to_str()) {
            return Some(Header::UserAgent);
        }
        if str_eq(s, Header::Host.to_str()) {
            return Some(Header::Host);
        }
        None
    }
}

} // verus!
