//! Response status codes.
use vstd::prelude::*;

verus! {

/// The status codes a response may carry.
#[derive(Clone, Copy, Debug, PartialEq, Eq, Structural)]
pub enum StatusCode {
    OK,
    Created,
    NotFound,
    InternalServerError,
}

impl StatusCode {
    /// The code and reason phrase that follow the protocol version in a status line.
    pub open spec fn spec_status_line(self) -> Seq<char> {
        match self {
            StatusCode::OK => seq!['2', '0', '0', ' ', 'O', 'K'],
            StatusCode::Created => seq!['2', '0', '1', ' ', 'C', 'r', 'e', 'a', 't', 'e', 'd'],
            StatusCode::NotFound => seq![
                '4', '0', '4', ' ', 'N', 'o', 't', ' ', 'F', 'o', 'u', 'n', 'd',
            ],
            StatusCode::InternalServerError => seq![
                '5', '0', '0', ' ', 'I', 'n', 't', 'e', 'r', 'n', 'a', 'l', ' ', 'S', 'e', 'r',
                'v', 'e', 'r', ' ', 'E', 'r', 'r', 'o', 'r',
            ],
        }
    }

    pub fn status_line(&self) -> (r: &'static str)
        ensures
            r@ == self.spec_status_line(),
    {
        match self {
            StatusCode::OK => {
                proof {
                    reveal_strlit("200 OK");
                }
                "200 OK"
            },
            StatusCode::Created => {
                proof {
                    reveal_strlit("201 Created");
                }
                "201 Created"
            },
            StatusCode::NotFound => {
                proof {
                    reveal_strlit("404 Not Found");
                }
                "404 Not Found"
            },
            StatusCode::InternalServerError => {
                proof {
                    reveal_strlit("500 Internal Server Error");
                }
                "500 Internal Server Error"
            },
        }
    }
}

} // verus!
