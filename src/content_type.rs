//! Media types of response bodies.
use vstd::prelude::*;

verus! {

/// The media type of a response body.
#[derive(Clone, Copy, Debug, PartialEq, Eq, Structural)]
pub enum ContentType {
    Plain,
    OctetStream,
}

impl ContentType {
    /// The text of the `content-type` header for this type.
    pub open spec fn spec_text(self) -> Seq<char> {
        match self {
            ContentType::Plain => seq!['t', 'e', 'x', 't', '/', 'p', 'l', 'a', 'i', 'n'],
            ContentType::OctetStream => seq!['a', 'p', 'p', 'l', 'i', 'c', 'a', 't', 'i', 'o', 'n', '/', 'o', 'c', 't', 'e', 't', '-', 's', 't', 'r', 'e', 'a', 'm'],
        }
    }

    pub fn to_str(&self) -> (r: &'static str)
        ensures
            r@ == self.spec_text(),
    {
        match self {
            ContentType::Plain => {
                proof {
                    reveal_strlit("text/plain");
                }
                "text/plain"
            },
            ContentType::OctetStream => {
                proof {
                    reveal_strlit("application/octet-stream");
                }
                "application/octet-stream"
            },
        }
    }
}

} // verus!
