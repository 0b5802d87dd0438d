//! Content encodings the server can apply to a body.
use vstd::prelude::*;

use crate::text::{
    ascii_lower, chars_of, lemma_split_on_extend, split_on, str_eq,
    substring, to_ascii_lower, trim, trimmed_bounds,
};

verus! {

/// The encoding a token of an `accept-encoding` value names, once trimmed.
pub open spec fn token_encoding(token: Seq<char>) -> Option<Encoding> {
    Encoding::spec_from_lower(ascii_lower(trim(token)))
}

/// Token `k` is the first one that names a supported encoding.
pub open spec fn is_first_supported(tokens: Seq<Seq<char>>, k: int) -> bool {
    &&& 0 <= k < tokens.len()
    &&& token_encoding(tokens[k]) is Some
    &&& forall|j: int| 0 <= j < k ==> #[trigger] token_encoding(tokens[j]) is None
}

/// The encoding chosen for an `accept-encoding` value: its comma-separated
/// tokens are trimmed and the first one naming a supported encoding wins;
/// the others are skipped.
pub open spec fn spec_negotiate(value: Seq<char>) -> Option<Encoding> {
    let tokens = split_on(value, ',');
    if exists|k: int| is_first_supported(tokens, k) {
        token_encoding(tokens[choose|k: int| is_first_supported(tokens, k)])
    } else {
        None
    }
}

/// A content encoding the server can apply to a response body.
#[derive(Clone, Copy, Debug, PartialEq, Eq, Structural)]
pub enum Encoding {
    Gzip,
}

impl Encoding {
    /// The text that names it in a header value.
    pub open spec fn spec_text(self) -> Seq<char> {
        match self {
            Encoding::Gzip => seq!['g', 'z', 'i', 'p'],
        }
    }

    /// The value named by a lower-case token.
    pub open spec fn spec_from_lower(token: Seq<char>) -> Option<Encoding> {
        if token == Encoding::Gzip.spec_text() {
            Some(Encoding::Gzip)
        } else {
            None
        }
    }

    pub fn to_str(&self) -> (r: &'static str)
        ensures
            r@ == self.spec_text(),
    {
        match self {
            Encoding::Gzip => {
                proof {
                    reveal_strlit("gzip");
                }
                "gzip"
            },
        }
    }

    /// The value named by `token`, compared without regard to ASCII case.
    pub fn from_token(token: &str) -> (r: Option<Encoding>)
        ensures
            r == Encoding::spec_from_lower(ascii_lower(token@)),
    {
        let lowered = to_ascii_lower(token);
        if str_eq(lowered.as_str(), Encoding::Gzip.to_str()) {
            return Some(Encoding::Gzip);
        }
        None
    }

    /// The encoding of the token `from..to` of `value`, once trimmed.
    fn token_at(value: &str, chars: &Vec<char>, from: usize, to: usize) -> (r: Option<Encoding>)
        requires
            chars@ == value@,
            from <= to <= chars.len(),
        ensures
            r == token_encoding(value@.subrange(from as int, to as int)),
    {
        let (a, b) = trimmed_bounds(chars, from, to);
        let token = substring(value, a, b);
        Encoding::from_token(token.as_str())
    }

    /// Picks the encoding for a response from the request's `accept-encoding` value.
    pub fn negotiate(value: &str) -> (r: Option<Encoding>)
        ensures
            r == spec_negotiate(value@),
    {
        let chars = chars_of(value);
        let n = chars.len();
        let ghost tokens = split_on(value@, ',');
        let ghost mut done: Seq<Seq<char>> = Seq::empty();
        let mut start: usize = 0;
        let mut i: usize = 0;
        proof {
            assert(value@.take(0) =~= Seq::<char>::empty());
            assert(split_on(Seq::<char>::empty(), ',') =~= done.push(value@.subrange(0, 0)));
        }
        while i < n
            invariant
                chars@ == value@,
                n == chars.len(),
                tokens == split_on(value@, ','),
                start <= i <= n,
                split_on(value@.take(i as int), ',') == done.push(
                    value@.subrange(start as int, i as int),
                ),
                forall|j: int| 0 <= j < done.len() ==> #[trigger] token_encoding(done[j]) is None,
            decreases n - i,
        {
            let ghost prefix = value@.take(i + 1);
            proof {
                assert(prefix.drop_last() =~= value@.take(i as int));
                assert(prefix.last() == chars@[i as int]);
            }
            if chars[i] == ',' {
                let ghost tok = value@.subrange(start as int, i as int);
                let found = Encoding::token_at(value, &chars, start, i);
                proof {
                    assert(value@.subrange(i + 1, i + 1) =~= Seq::<char>::empty());
                    assert(split_on(prefix, ',') =~= done.push(tok).push(
                        value@.subrange(i + 1, i + 1),
                    ));
                }
                if found.is_some() {
                    proof {
                        lemma_split_on_extend(value@, ',', i + 1, n as int);
                        assert(value@.take(n as int) =~= value@);
                        let k = done.len() as int;
                        assert(tokens[k] == tok);
                        assert forall|j: int| 0 <= j < k implies #[trigger] token_encoding(
                            tokens[j],
                        ) is None by {
                            assert(tokens[j] == split_on(prefix, ',')[j]);
                        }
                        assert(is_first_supported(tokens, k));
                        let c = choose|c: int| is_first_supported(tokens, c);
                        if c < k {
                            assert(token_encoding(tokens[c]) is None);
                        } else if k < c {
                            assert(token_encoding(tokens[k]) is None);
                        }
                    }
                    return found;
                }
                proof {
                    done = done.push(tok);
                }
                start = i + 1;
            } else {
                proof {
                    let cur = value@.subrange(start as int, i as int);
                    assert(cur.push(chars@[i as int]) =~= value@.subrange(start as int, i + 1));
                    assert(split_on(prefix, ',') =~= done.push(
                        value@.subrange(start as int, i + 1),
                    ));
                }
            }
            i = i + 1;
        }
        let found = Encoding::token_at(value, &chars, start, n);
        proof {
            assert(value@.take(n as int) =~= value@);
            let k = done.len() as int;
            if found.is_some() {
                assert(is_first_supported(tokens, k));
                let c = choose|c: int| is_first_supported(tokens, c);
                if c < k {
                    assert(token_encoding(tokens[c]) is None);
                } else if k < c {
                    assert(token_encoding(tokens[k]) is None);
                }
            } else {
                assert forall|c: int| !is_first_supported(tokens, c) by {
                    if is_first_supported(tokens, c) {
                        if c < k {
                            assert(token_encoding(done[c]) is None);
                        }
                    }
                }
            }
        }
        found
    }
}

} // verus!
