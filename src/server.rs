//! The route table and the matching of requests against it.
use vstd::prelude::*;
use vstd::string::StringExecFns;

use crate::method::Method;
use crate::request::Request;
use crate::response::{default_parts, spec_build, Response, ResponseParts};
use crate::route_pattern::{compile_pattern, pattern_params, pattern_regex, texts};
use crate::status_code::StatusCode;
use crate::string_map::StringMap;
use crate::text::str_eq;

verus! {

/// What the regex crate captures when the expression `regex` is searched in
/// `text`: `None` when the expression does not compile or does not match, else
/// the text of each group in `names` (`None` for a group that took no part).
pub uninterp spec fn regex_captures_of(
    regex: Seq<char>,
    text: Seq<char>,
    names: Seq<Seq<char>>,
) -> Option<Seq<Option<Seq<char>>>>;

pub open spec fn opt_text(o: Option<String>) -> Option<Seq<char>> {
    match o {
        Some(s) => Some(s@),
        None => None,
    }
}

pub open spec fn opt_texts(v: Seq<Option<String>>) -> Seq<Option<Seq<char>>> {
    v.map_values(|o: Option<String>| opt_text(o))
}

pub open spec fn captures_view(r: Option<Vec<Option<String>>>) -> Option<Seq<Option<Seq<char>>>> {
    match r {
        Some(v) => Some(opt_texts(v@)),
        None => None,
    }
}

/// Relies on `regex::Regex::new` and `Regex::captures`, and on `Captures::name`
/// for each group name: the outcome depends on the expression, the text and the
/// names alone.
#[verifier::external_body]
fn regex_captures(regex: &str, text: &str, names: &Vec<String>) -> (r: Option<Vec<Option<String>>>)
    ensures
        captures_view(r) == regex_captures_of(regex@, text@, texts(names@)),
{
    let caps = regex::Regex::new(regex).ok()?.captures(text)?;
    Some(names.iter().map(|n| caps.name(n).map(|m| m.as_str().to_string())).collect())
}

pub open spec fn min(a: int, b: int) -> int {
    if a <= b {
        a
    } else {
        b
    }
}

/// The parameters taken from the first `k` group names and their captures; a
/// group that captured nothing adds no parameter.
pub open spec fn spec_params(
    names: Seq<Seq<char>>,
    caps: Seq<Option<Seq<char>>>,
    k: int,
) -> Map<Seq<char>, Seq<char>>
    decreases k,
{
    if k <= 0 {
        Map::empty()
    } else {
        let m = spec_params(names, caps, k - 1);
        match caps[k - 1] {
            Some(v) => m.insert(names[k - 1], v),
            None => m,
        }
    }
}

/// The parameters of a pattern matched against a path, or `None` when it does
/// not match.
pub open spec fn route_params(pattern: Seq<char>, path: Seq<char>) -> Option<
    Map<Seq<char>, Seq<char>>,
> {
    let names = pattern_params(pattern);
    match regex_captures_of(pattern_regex(pattern), path, names) {
        Some(caps) => Some(spec_params(names, caps, min(names.len() as int, caps.len() as int))),
        None => None,
    }
}

/// A registered route as the contracts see it.
pub struct RouteEntry<H> {
    pub method: Method,
    pub pattern: Seq<char>,
    pub handler: H,
}

pub open spec fn entry_match<H>(e: RouteEntry<H>, method: Method, path: Seq<char>) -> Option<
    Map<Seq<char>, Seq<char>>,
> {
    if e.method == method {
        route_params(e.pattern, path)
    } else {
        None
    }
}

/// Route `i` matches and no route before it does.
pub open spec fn is_first_match<H>(
    routes: Seq<RouteEntry<H>>,
    method: Method,
    path: Seq<char>,
    i: int,
) -> bool {
    &&& 0 <= i < routes.len()
    &&& entry_match(routes[i], method, path) is Some
    &&& forall|j: int| 0 <= j < i ==> #[trigger] entry_match(routes[j], method, path) is None
}

/// The position of the earliest registered route that matches.
pub open spec fn first_match<H>(routes: Seq<RouteEntry<H>>, method: Method, path: Seq<char>) -> Option<
    int,
> {
    if exists|i: int| is_first_match(routes, method, path, i) {
        Some(choose|i: int| is_first_match(routes, method, path, i))
    } else {
        None
    }
}

pub open spec fn same_route<H>(a: RouteEntry<H>, b: RouteEntry<H>) -> bool {
    a.method == b.method && a.pattern == b.pattern
}

/// The table after registering `e`: it replaces the handler of a route with the
/// same method and pattern, in place, or else is added at the end.
pub open spec fn spec_register<H>(routes: Seq<RouteEntry<H>>, e: RouteEntry<H>) -> Seq<
    RouteEntry<H>,
> {
    if exists|i: int| 0 <= i < routes.len() && same_route(#[trigger] routes[i], e) {
        routes.update(choose|i: int| 0 <= i < routes.len() && same_route(#[trigger] routes[i], e), e)
    } else {
        routes.push(e)
    }
}

/// If route `i` matches, some route matches, and the one chosen was registered
/// no later than `i`.
pub proof fn lemma_first_registered_wins<H>(
    routes: Seq<RouteEntry<H>>,
    method: Method,
    path: Seq<char>,
    i: int,
)
    requires
        0 <= i < routes.len(),
        entry_match(routes[i], method, path) is Some,
    ensures
        first_match(routes, method, path) is Some,
        first_match(routes, method, path)->0 <= i,
    decreases i,
{
    if exists|j: int| 0 <= j < i && #[trigger] entry_match(routes[j], method, path) is Some {
        let j = choose|j: int| 0 <= j < i && #[trigger] entry_match(routes[j], method, path) is Some;
        lemma_first_registered_wins(routes, method, path, j);
    } else {
        assert(is_first_match(routes, method, path, i));
        let k = choose|k: int| is_first_match(routes, method, path, k);
        if i < k {
            assert(entry_match(routes[i], method, path) is None);
        }
    }
}

/// Of two routes registered one after the other that both match a request, the
/// one registered first is chosen.
pub proof fn lemma_earlier_registration_wins<H>(
    first: RouteEntry<H>,
    second: RouteEntry<H>,
    method: Method,
    path: Seq<char>,
)
    requires
        !same_route(first, second),
        entry_match(first, method, path) is Some,
    ensures
        first_match(
            spec_register(spec_register(Seq::<RouteEntry<H>>::empty(), first), second),
            method,
            path,
        ) == Some(0int),
{
    let one = spec_register(Seq::<RouteEntry<H>>::empty(), first);
    assert(one == seq![first]);
    let two = spec_register(one, second);
    assert(two == seq![first, second]);
    lemma_first_registered_wins(two, method, path, 0);
}

/// The parameters that the captures of the named groups give, later names
/// replacing earlier equal ones.
pub fn params_from_captures(names: &Vec<String>, caps: &Vec<Option<String>>) -> (r: StringMap)
    ensures
        r@ == spec_params(
            texts(names@),
            opt_texts(caps@),
            min(names@.len() as int, caps@.len() as int),
        ),
{
    let mut params = StringMap::new();
    let mut k: usize = 0;
    while k < names.len() && k < caps.len()
        invariant
            k <= names@.len(),
            k <= caps@.len(),
            params@ == spec_params(texts(names@), opt_texts(caps@), k as int),
        decreases names@.len() - k,
    {
        match &caps[k] {
            Some(v) => {
                params.insert(names[k].clone(), v.clone());
            },
            None => {},
        }
        k = k + 1;
    }
    params
}

/// One registered route, with its pattern compiled.
struct Route<H> {
    method: Method,
    pattern: String,
    regex: String,
    names: Vec<String>,
    handler: H,
}

impl<H> Route<H> {
    #[verifier::type_invariant]
    spec fn compiled(self) -> bool {
        &&& self.regex@ == pattern_regex(self.pattern@)
        &&& texts(self.names@) == pattern_params(self.pattern@)
    }

    spec fn entry(self) -> RouteEntry<H> {
        RouteEntry { method: self.method, pattern: self.pattern@, handler: self.handler }
    }

    fn new(method: Method, pattern: &str, handler: H) -> (r: Self)
        ensures
            r.entry() == (RouteEntry { method, pattern: pattern@, handler }),
    {
        let (regex, names) = compile_pattern(pattern);
        Route { method, pattern: String::from_str(pattern), regex, names, handler }
    }

    /// The route's parameters for `path`, if the route matches it.
    fn params_for(&self, method: Method, path: &str) -> (r: Option<StringMap>)
        ensures
            match entry_match(self.entry(), method, path@) {
                Some(m) => r matches Some(p) && p@ == m,
                None => r is None,
            },
    {
        proof {
            use_type_invariant(self);
        }
        if self.method != method {
            return None;
        }
        match regex_captures(self.regex.as_str(), path, &self.names) {
            Some(caps) => Some(params_from_captures(&self.names, &caps)),
            None => None,
        }
    }
}

spec fn entries<H>(routes: Seq<Route<H>>) -> Seq<RouteEntry<H>> {
    routes.map_values(|r: Route<H>| r.entry())
}

/// Collects routes before the server starts.
pub struct HttpServerBuilder<H> {
    routes: Vec<Route<H>>,
}

impl<H> View for HttpServerBuilder<H> {
    type V = Seq<RouteEntry<H>>;

    closed spec fn view(&self) -> Seq<RouteEntry<H>> {
        entries(self.routes@)
    }
}

impl<H> HttpServerBuilder<H> {
    /// No two routes share a method and a pattern.
    #[verifier::type_invariant]
    spec fn distinct(self) -> bool {
        forall|i: int, j: int|
            0 <= i < j < self.routes@.len() ==> !same_route(
                #[trigger] self.routes@[i].entry(),
                #[trigger] self.routes@[j].entry(),
            )
    }

    pub fn new() -> (r: Self)
        ensures
            r@ == Seq::<RouteEntry<H>>::empty(),
    {
        let r = HttpServerBuilder { routes: Vec::new() };
        assert(r@ =~= Seq::<RouteEntry<H>>::empty());
        r
    }

    fn register(self, method: Method, path: &str, handler: H) -> (r: Self)
        ensures
            r@ == spec_register(self@, RouteEntry { method, pattern: path@, handler }),
    {
        proof {
            use_type_invariant(&self);
        }
        let ghost old_view = self@;
        let ghost e = RouteEntry { method, pattern: path@, handler };
        let HttpServerBuilder { mut routes } = self;
        assert(forall|a: int| 0 <= a < routes@.len() ==> #[trigger] old_view[a] == routes@[a].entry());
        let mut i: usize = 0;
        while i < routes.len()
            invariant
                i <= routes@.len(),
                entries(routes@) == old_view,
                e == (RouteEntry { method, pattern: path@, handler }),
                old_view == self@,
                forall|a: int, b: int|
                    0 <= a < b < old_view.len() ==> !same_route(
                        #[trigger] old_view[a],
                        #[trigger] old_view[b],
                    ),
                forall|j: int| 0 <= j < i ==> !same_route(#[trigger] old_view[j], e),
            decreases routes@.len() - i,
        {
            if routes[i].method == method && str_eq(routes[i].pattern.as_str(), path) {
                proof {
                    assert(same_route(old_view[i as int], e));
                    let k = choose|k: int| 0 <= k < old_view.len() && same_route(
                        #[trigger] old_view[k],
                        e,
                    );
                    if k != i {
                        if k < i {
                            assert(!same_route(old_view[k], e));
                        } else {
                            assert(!same_route(old_view[i as int], old_view[k]));
                        }
                    }
                    assert(spec_register(old_view, e) == old_view.update(i as int, e));
                }
                let route = Route::new(method, path, handler);
                assert(route.entry() == e);
                routes.set(i, route);
                assert(forall|a: int|
                    0 <= a < routes@.len() && a != i ==> #[trigger] routes@[a].entry() == old_view[a]);
                assert(forall|a: int, b: int|
                    0 <= a < b < routes@.len() ==> !same_route(
                        #[trigger] routes@[a].entry(),
                        #[trigger] routes@[b].entry(),
                    )) by {
                    assert forall|a: int, b: int| 0 <= a < b < routes@.len() implies !same_route(
                        #[trigger] routes@[a].entry(),
                        #[trigger] routes@[b].entry(),
                    ) by {
                        if a == i {
                            assert(!same_route(old_view[a], old_view[b]));
                        } else if b == i {
                            assert(!same_route(old_view[a], old_view[b]));
                        } else {
                            assert(!same_route(old_view[a], old_view[b]));
                        }
                    }
                }
                let r = HttpServerBuilder { routes };
                assert(r@ =~= old_view.update(i as int, e));
                return r;
            }
            i = i + 1;
        }
        routes.push(Route::new(method, path, handler));
        assert(forall|a: int|
            0 <= a < old_view.len() ==> #[trigger] routes@[a].entry() == old_view[a]);
        assert forall|a: int, b: int| 0 <= a < b < routes@.len() implies !same_route(
            #[trigger] routes@[a].entry(),
            #[trigger] routes@[b].entry(),
        ) by {
            if b == old_view.len() {
                assert(!same_route(old_view[a], e));
            } else {
                assert(!same_route(old_view[a], old_view[b]));
            }
        }
        let r = HttpServerBuilder { routes };
        assert(r@ =~= old_view.push(e));
        r
    }

    /// Adds a route for `GET` requests whose path matches `path`.
    pub fn get(self, path: &str, handler: H) -> (r: Self)
        ensures
            r@ == spec_register(self@, RouteEntry { method: Method::Get, pattern: path@, handler }),
    {
        self.register(Method::Get, path, handler)
    }

    /// Adds a route for `POST` requests whose path matches `path`.
    pub fn post(self, path: &str, handler: H) -> (r: Self)
        ensures
            r@ == spec_register(self@, RouteEntry { method: Method::Post, pattern: path@, handler }),
    {
        self.register(Method::Post, path, handler)
    }

    pub fn build(self) -> (r: HttpServer<H>)
        ensures
            r@ == self@,
    {
        HttpServer { routes: self.routes }
    }
}

/// The server's route table, fixed once built.
pub struct HttpServer<H> {
    routes: Vec<Route<H>>,
}

impl<H> View for HttpServer<H> {
    type V = Seq<RouteEntry<H>>;

    closed spec fn view(&self) -> Seq<RouteEntry<H>> {
        entries(self.routes@)
    }
}

impl<H> HttpServer<H> {
    pub fn builder() -> (r: HttpServerBuilder<H>)
        ensures
            r@ == Seq::<RouteEntry<H>>::empty(),
    {
        HttpServerBuilder::new()
    }

    /// The number of routes.
    pub fn len(&self) -> (r: usize)
        ensures
            r == self@.len(),
    {
        self.routes.len()
    }

    /// The earliest registered route that matches, with the parameters taken
    /// from the path.
    pub fn find_route(&self, method: Method, path: &str) -> (r: Option<(usize, StringMap)>)
        ensures
            match first_match(self@, method, path@) {
                Some(i) => r matches Some((k, p)) && k == i && entry_match(self@[i], method, path@)
                    == Some(p@),
                None => r is None,
            },
    {
        let mut i: usize = 0;
        while i < self.routes.len()
            invariant
                i <= self@.len(),
                self@.len() == self.routes@.len(),
                forall|j: int| 0 <= j < i ==> #[trigger] entry_match(self@[j], method, path@) is None,
            decreases self.routes@.len() - i,
        {
            match self.routes[i].params_for(method, path) {
                Some(params) => {
                    proof {
                        assert(is_first_match(self@, method, path@, i as int));
                        let k = choose|k: int| is_first_match(self@, method, path@, k);
                        if k < i {
                            assert(entry_match(self@[k], method, path@) is None);
                        } else if i < k {
                            assert(entry_match(self@[i as int], method, path@) is None);
                        }
                    }
                    return Some((i, params));
                },
                None => {},
            }
            i = i + 1;
        }
        proof {
            assert forall|k: int| !is_first_match(self@, method, path@, k) by {
                if is_first_match(self@, method, path@, k) {
                    assert(entry_match(self@[k], method, path@) is None);
                }
            }
        }
        None
    }

    /// The handler of the route that takes `request`, and the request with the
    /// route's parameters filled in; `None` when no route matches.
    pub fn dispatch(&self, request: Request) -> (r: Option<(&H, Request)>)
        ensures
            match first_match(self@, request.method, request.path@) {
                Some(i) => r matches Some((h, req)) && *h == self@[i].handler && Some(req.params@)
                    == entry_match(self@[i], request.method, request.path@) && req.method
                    == request.method && req.path == request.path && req.http_version
                    == request.http_version && req.headers == request.headers && req.body
                    == request.body,
                None => r is None,
            },
    {
        match self.find_route(request.method, request.path.as_str()) {
            None => None,
            Some((i, params)) => {
                let mut request = request;
                request.params = params;
                Some((&self.routes[i].handler, request))
            },
        }
    }
}

/// The answer to a request that no route takes: `404 Not Found`, no body.
pub fn not_found() -> (r: Response)
    ensures
        r@ == spec_build(
            ResponseParts { status_code: StatusCode::NotFound, ..default_parts() },
            false,
        ),
{
    Response::builder().status_code(StatusCode::NotFound).build()
}

} // verus!
