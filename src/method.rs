//! Request methods.
use vstd::prelude::*;

use crate::text::str_eq;

verus! {

/// The request methods the server recognises.
#[derive(Clone, Copy, Debug, PartialEq, Eq, Structural)]
pub enum Method {
    Get,
    Post,
    Put,
    Delete,
}

impl Method {
    /// The token that names the method on a start line; matching is case-sensitive.
    pub open spec fn spec_token(self) -> Seq<char> {
        match self {
            Method::Get => seq!['G', 'E', 'T'],
            Method::Post => seq!['P', 'O', 'S', 'T'],
            Method::Put => seq!['P', 'U', 'T'],
            Method::Delete => seq!['D', 'E', 'L', 'E', 'T', 'E'],
        }
    }

    pub open spec fn spec_from_token(token: Seq<char>) -> Option<Method> {
        if token == Method::Get.spec_token() {
            Some(Method::Get)
        } else if token == Method::Post.spec_token() {
            Some(Method::Post)
        } else if token == Method::Put.spec_token() {
            Some(Method::Put)
        } else if token == Method::Delete.spec_token() {
            Some(Method::Delete)
        } else {
            None
        }
    }

    /// The method named by `token`, if it is one of the recognised ones.
    pub fn from_token(token: &str) -> (r: Option<Method>)
        ensures
            r == Method::spec_from_token(token@),
    {
        proof {
            reveal_strlit("GET");
            assert("GET"@ =~= Method::Get.spec_token());
            reveal_strlit("POST");
            assert("POST"@ =~= Method::Post.spec_token());
            reveal_strlit("PUT");
            assert("PUT"@ =~= Method::Put.spec_token());
            reveal_strlit("DELETE");
            assert("DELETE"@ =~= Method::Delete.spec_token());
        }
        if str_eq(token, "GET") {
            return Some(Method::Get);
        }
        if str_eq(token, "POST") {
            return Some(Method::Post);
        }
        if str_eq(token, "PUT") {
            return Some(Method::Put);
        }
        if str_eq(token, "DELETE") {
            return Some(Method::Delete);
        }
        None
    }
}

} // verus!
