//! Route patterns and the regular expressions they compile to.
//!
//! A pattern is split on `/`. A segment written `:name` captures whatever text
//! stands at its place in a request path (slashes included); any other segment
//! must appear verbatim.
use vstd::prelude::*;
use vstd::string::StringExecFns;

use crate::text::{chars_of, split_on, substring};

verus! {

/// Characters that have a meaning of their own in a regular expression.
pub open spec fn is_regex_meta(c: char) -> bool {
    c == '\\' || c == '.' || c == '+' || c == '*' || c == '?' || c == '(' || c == ')' || c == '|'
        || c == '[' || c == ']' || c == '{' || c == '}' || c == '^' || c == '$' || c == '#'
        || c == '&' || c == '-' || c == '~'
}

/// A regular expression that matches the text `s` and nothing else.
pub open spec fn escape_literal(s: Seq<char>) -> Seq<char>
    decreases s.len(),
{
    if s.len() == 0 {
        Seq::<char>::empty()
    } else {
        escape_literal(s.drop_last()) + if is_regex_meta(s.last()) {
            seq!['\\', s.last()]
        } else {
            seq![s.last()]
        }
    }
}

pub open spec fn is_param_segment(seg: Seq<char>) -> bool {
    seg.len() > 0 && seg[0] == ':'
}

/// A named group that captures any text.
pub open spec fn capture_group(name: Seq<char>) -> Seq<char> {
    seq!['(', '?', '<'] + name + seq!['>', '.', '*', ')']
}

pub open spec fn segment_regex(seg: Seq<char>) -> Seq<char> {
    if is_param_segment(seg) {
        capture_group(seg.drop_first())
    } else {
        escape_literal(seg)
    }
}

/// The segments' expressions joined by `/`.
pub open spec fn segments_regex(segs: Seq<Seq<char>>) -> Seq<char>
    decreases segs.len(),
{
    if segs.len() == 0 {
        Seq::<char>::empty()
    } else if segs.len() == 1 {
        segment_regex(segs[0])
    } else {
        segments_regex(segs.drop_last()) + seq!['/'] + segment_regex(segs.last())
    }
}

/// The names of the named segments, in order.
pub open spec fn param_names(segs: Seq<Seq<char>>) -> Seq<Seq<char>>
    decreases segs.len(),
{
    if segs.len() == 0 {
        Seq::<Seq<char>>::empty()
    } else {
        param_names(segs.drop_last()) + if is_param_segment(segs.last()) {
            seq![segs.last().drop_first()]
        } else {
            Seq::<Seq<char>>::empty()
        }
    }
}

/// The regular expression a pattern compiles to, anchored at both ends.
pub open spec fn pattern_regex(pattern: Seq<char>) -> Seq<char> {
    seq!['^'] + segments_regex(split_on(pattern, '/')) + seq!['$']
}

/// The names of a pattern's named segments.
pub open spec fn pattern_params(pattern: Seq<char>) -> Seq<Seq<char>> {
    param_names(split_on(pattern, '/'))
}

pub open spec fn texts(v: Seq<String>) -> Seq<Seq<char>> {
    v.map_values(|s: String| s@)
}

fn is_meta(c: char) -> (r: bool)
    ensures
        r == is_regex_meta(c),
{
    c == '\\' || c == '.' || c == '+' || c == '*' || c == '?' || c == '(' || c == ')' || c == '|'
        || c == '[' || c == ']' || c == '{' || c == '}' || c == '^' || c == '$' || c == '#'
        || c == '&' || c == '-' || c == '~'
}

/// Appends an expression matching the characters `from..to` of the pattern verbatim.
fn push_escaped(out: &mut String, pattern: &str, chars: &Vec<char>, from: usize, to: usize)
    requires
        chars@ == pattern@,
        from <= to <= chars.len(),
    ensures
        final(out)@ == old(out)@ + escape_literal(pattern@.subrange(from as int, to as int)),
{
    proof {
        reveal_strlit("\\");
        assert("\\"@ =~= seq!['\\']);
        assert(pattern@.subrange(from as int, from as int) =~= Seq::<char>::empty());
        assert(old(out)@ + Seq::<char>::empty() =~= old(out)@);
    }
    let mut k = from;
    while k < to
        invariant
            chars@ == pattern@,
            "\\"@ == seq!['\\'],
            from <= k <= to <= chars.len(),
            out@ == old(out)@ + escape_literal(pattern@.subrange(from as int, k as int)),
        decreases to - k,
    {
        let c = chars[k];
        let ghost before = out@;
        if is_meta(c) {
            out.append("\\");
        }
        out.append(pattern.substring_char(k, k + 1));
        proof {
            let seg = pattern@.subrange(from as int, k + 1);
            assert(seg.drop_last() =~= pattern@.subrange(from as int, k as int));
            assert(seg.last() == c);
            assert(pattern@.subrange(k as int, k + 1) =~= seq![c]);
            if is_regex_meta(c) {
                assert(out@ =~= before + seq!['\\', c]);
            } else {
                assert(out@ =~= before + seq![c]);
            }
            assert(out@ =~= old(out)@ + escape_literal(seg));
        }
        k = k + 1;
    }
}

/// Appends the expression of the segment `from..to` and, for a named segment,
/// records its name.
fn push_segment(
    out: &mut String,
    names: &mut Vec<String>,
    pattern: &str,
    chars: &Vec<char>,
    from: usize,
    to: usize,
)
    requires
        chars@ == pattern@,
        from <= to <= chars.len(),
    ensures
        ({
            let seg = pattern@.subrange(from as int, to as int);
            &&& final(out)@ == old(out)@ + segment_regex(seg)
            &&& texts(final(names)@) == texts(old(names)@) + if is_param_segment(seg) {
                seq![seg.drop_first()]
            } else {
                Seq::<Seq<char>>::empty()
            }
        }),
{
    let ghost seg = pattern@.subrange(from as int, to as int);
    if from < to && chars[from] == ':' {
        proof {
            reveal_strlit("(?<");
            reveal_strlit(">.*)");
        }
        let name = substring(pattern, from + 1, to);
        out.append("(?<");
        out.append(name.as_str());
        out.append(">.*)");
        names.push(name);
        proof {
            assert(name@ =~= seg.drop_first());
            assert("(?<"@ =~= seq!['(', '?', '<']);
            assert(">.*)"@ =~= seq!['>', '.', '*', ')']);
            assert(final(out)@ =~= old(out)@ + capture_group(seg.drop_first()));
            assert(texts(final(names)@) =~= texts(old(names)@) + seq![seg.drop_first()]);
        }
    } else {
        push_escaped(out, pattern, chars, from, to);
        proof {
            assert(texts(final(names)@) =~= texts(old(names)@) + Seq::<Seq<char>>::empty());
        }
    }
}

/// The regular expression a route pattern compiles to, and the names of its
/// named segments in order.
pub fn compile_pattern(pattern: &str) -> (r: (String, Vec<String>))
    ensures
        r.0@ == pattern_regex(pattern@),
        texts(r.1@) == pattern_params(pattern@),
{
    let chars = chars_of(pattern);
    let n = chars.len();
    let mut out = String::from_str("^");
    let mut names: Vec<String> = Vec::new();
    let ghost mut done: Seq<Seq<char>> = Seq::empty();
    let mut start: usize = 0;
    let mut i: usize = 0;
    proof {
        reveal_strlit("^");
        reveal_strlit("/");
        reveal_strlit("$");
        assert("^"@ =~= seq!['^']);
        assert("/"@ =~= seq!['/']);
        assert("$"@ =~= seq!['$']);
        assert(pattern@.take(0) =~= Seq::<char>::empty());
        assert(split_on(Seq::<char>::empty(), '/') =~= done.push(pattern@.subrange(0, 0)));
        assert(texts(names@) =~= param_names(done));
    }
    while i < n
        invariant
            chars@ == pattern@,
            n == chars.len(),
            start <= i <= n,
            split_on(pattern@.take(i as int), '/') == done.push(
                pattern@.subrange(start as int, i as int),
            ),
            done.len() == 0 ==> out@ == seq!['^'],
            done.len() > 0 ==> out@ == seq!['^'] + segments_regex(done) + seq!['/'],
            texts(names@) == param_names(done),
            "/"@ == seq!['/'],
        decreases n - i,
    {
        let ghost prefix = pattern@.take(i + 1);
        proof {
            assert(prefix.drop_last() =~= pattern@.take(i as int));
            assert(prefix.last() == chars@[i as int]);
        }
        if chars[i] == '/' {
            let ghost seg = pattern@.subrange(start as int, i as int);
            let ghost before = out@;
            push_segment(&mut out, &mut names, pattern, &chars, start, i);
            out.append("/");
            proof {
                let next = done.push(seg);
                assert(next.drop_last() =~= done);
                assert(param_names(next) == param_names(done) + if is_param_segment(seg) {
                    seq![seg.drop_first()]
                } else {
                    Seq::<Seq<char>>::empty()
                });
                if done.len() == 0 {
                    assert(segments_regex(next) == segment_regex(seg));
                    assert(out@ =~= seq!['^'] + segments_regex(next) + seq!['/']);
                } else {
                    assert(out@ =~= seq!['^'] + segments_regex(next) + seq!['/']);
                }
                assert(split_on(prefix, '/') == split_on(prefix.drop_last(), '/').push(
                    Seq::<char>::empty(),
                ));
                assert(pattern@.subrange(i + 1, i + 1) =~= Seq::<char>::empty());
                assert(split_on(prefix, '/') =~= next.push(
                    pattern@.subrange(i + 1, i + 1),
                ));
                done = next;
            }
            start = i + 1;
        } else {
            proof {
                let cur = pattern@.subrange(start as int, i as int);
                assert(cur.push(chars@[i as int]) =~= pattern@.subrange(start as int, i + 1));
                assert(split_on(prefix, '/') =~= done.push(
                    pattern@.subrange(start as int, i + 1),
                ));
            }
        }
        i = i + 1;
    }
    let ghost seg = pattern@.subrange(start as int, n as int);
    push_segment(&mut out, &mut names, pattern, &chars, start, n);
    out.append("$");
    proof {
        let all = done.push(seg);
        assert(pattern@.take(n as int) =~= pattern@);
        assert(split_on(pattern@, '/') == all);
        assert(all.drop_last() =~= done);
        if done.len() == 0 {
            assert(segments_regex(all) == segment_regex(seg));
        }
        assert(out@ =~= pattern_regex(pattern@));
    }
    (out, names)
}

} // verus!
