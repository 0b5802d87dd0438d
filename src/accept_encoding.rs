//! Encodings a client may list in `accept-encoding`.
use vstd::prelude::*;

use crate::text::{ascii_lower, str_eq, to_ascii_lower};

verus! {

/// An encoding a client may accept, as listed in its `accept-encoding` header.
#[derive(Clone, Copy, Debug, PartialEq, Eq, Structural)]
pub enum AcceptEncoding {
    Gzip,
}

impl AcceptEncoding {
    /// The text that names it in a header value.
    pub open spec fn spec_text(self) -> Seq<char> {
        match self {
            AcceptEncoding::Gzip => seq!['g', 'z', 'i', 'p'],
        }
    }

    /// The value named by a lower-case token.
    pub open spec fn spec_from_lower(token: Seq<char>) -> Option<AcceptEncoding> {
        if token == AcceptEncoding::Gzip.spec_text() {
            Some(AcceptEncoding::Gzip)
        } else {
            None
        }
    }

    pub fn to_str(&self) -> (r: &'static str)
        ensures
            r@ == self.spec_text(),
    {
        match self {
            AcceptEncoding::Gzip => {
                proof {
                    reveal_strlit("gzip");
                }
                "gzip"
            },
        }
    }

    /// The value named by `token`, compared without regard to ASCII case.
    pub fn from_token(token: &str) -> (r: Option<AcceptEncoding>)
        ensures
            r == AcceptEncoding::spec_from_lower(ascii_lower(token@)),
    {
        let lowered = to_ascii_lower(token);
        if str_eq(lowered.as_str(), AcceptEncoding::Gzip.to_str()) {
            return Some(AcceptEncoding::Gzip);
        }
        None
    }
}

} // verus!
