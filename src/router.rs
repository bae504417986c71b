use vstd::prelude::*;
use crate::context::Context;
use crate::middleware::Middleware;
use crate::regex_pattern::{
    regex_accepts, regex_captures, regex_group_names, InvalidPattern, OwnedCaptures, RegexPattern,
};
use crate::request::Method;
use crate::result::{Failure, Response, STATUS_NOT_FOUND};

verus! {

/// The characters that `char::is_whitespace` accepts: those of Unicode's
/// `White_Space` property.
pub open spec fn is_white_space(c: char) -> bool {
    ('\u{9}' <= c && c <= '\u{d}') || c == ' ' || c == '\u{85}' || c == '\u{a0}'
        || c == '\u{1680}' || ('\u{2000}' <= c && c <= '\u{200a}') || c == '\u{2028}'
        || c == '\u{2029}' || c == '\u{202f}' || c == '\u{205f}' || c == '\u{3000}'
}

/// `s` without the white space at its front.
pub open spec fn trim_front(s: Seq<char>) -> Seq<char>
    decreases s.len(),
{
    if s.len() > 0 && is_white_space(s[0]) {
        trim_front(s.drop_first())
    } else {
        s
    }
}

/// `s` without the white space at its back.
pub open spec fn trim_back(s: Seq<char>) -> Seq<char>
    decreases s.len(),
{
    if s.len() > 0 && is_white_space(s.last()) {
        trim_back(s.drop_last())
    } else {
        s
    }
}

/// `s` without its first character where that is `c`.
pub open spec fn drop_first_if(s: Seq<char>, c: char) -> Seq<char> {
    if s.len() > 0 && s[0] == c {
        s.drop_first()
    } else {
        s
    }
}

/// `s` without its last character where that is `c`.
pub open spec fn drop_last_if(s: Seq<char>, c: char) -> Seq<char> {
    if s.len() > 0 && s.last() == c {
        s.drop_last()
    } else {
        s
    }
}

/// The body of a route pattern: trimmed of white space, then without a
/// leading `^`, a trailing `$` and a trailing `/`, one of each where present.
pub open spec fn pattern_body(p: Seq<char>) -> Seq<char> {
    drop_last_if(drop_last_if(drop_first_if(trim_back(trim_front(p)), '^'), '$'), '/')
}

/// The regular expression a route pattern is compiled from: `^/$` for an empty
/// body, else the body anchored at both ends with an optional trailing `/`.
pub open spec fn normalized(p: Seq<char>) -> Seq<char> {
    let body = pattern_body(p);
    if body.len() == 0 {
        seq!['^', '/', '$']
    } else {
        seq!['^'] + body + seq!['/', '?', '$']
    }
}

fn is_whitespace_char(c: char) -> (r: bool)
    ensures
        r == is_white_space(c),
{
    ('\u{9}' <= c && c <= '\u{d}') || c == ' ' || c == '\u{85}' || c == '\u{a0}'
        || c == '\u{1680}' || ('\u{2000}' <= c && c <= '\u{200a}') || c == '\u{2028}'
        || c == '\u{2029}' || c == '\u{202f}' || c == '\u{205f}' || c == '\u{3000}'
}

/// Moves `lo` past the white space at the front of `s[lo..hi]`.
fn skip_front(s: &str, lo: usize, hi: usize) -> (r: usize)
    requires
        lo <= hi <= s@.len(),
    ensures
        lo <= r <= hi,
        s@.subrange(r as int, hi as int) == trim_front(s@.subrange(lo as int, hi as int)),
{
    let mut i: usize = lo;
    while i < hi && is_whitespace_char(s.get_char(i))
        invariant
            lo <= i <= hi <= s@.len(),
            trim_front(s@.subrange(lo as int, hi as int)) == trim_front(s@.subrange(i as int, hi as int)),
        decreases hi - i,
    {
        assert(s@.subrange(i as int, hi as int).drop_first() =~= s@.subrange(i + 1, hi as int));
        i = i + 1;
    }
    i
}

/// Moves `hi` back before the white space at the back of `s[lo..hi]`.
fn skip_back(s: &str, lo: usize, hi: usize) -> (r: usize)
    requires
        lo <= hi <= s@.len(),
    ensures
        lo <= r <= hi,
        s@.subrange(lo as int, r as int) == trim_back(s@.subrange(lo as int, hi as int)),
{
    let mut j: usize = hi;
    while lo < j && is_whitespace_char(s.get_char(j - 1))
        invariant
            lo <= j <= hi <= s@.len(),
            trim_back(s@.subrange(lo as int, hi as int)) == trim_back(s@.subrange(lo as int, j as int)),
        decreases j - lo,
    {
        assert(s@.subrange(lo as int, j as int).drop_last() =~= s@.subrange(lo as int, j - 1));
        j = j - 1;
    }
    j
}

/// Moves `lo` past `c` where `s[lo..hi]` starts with it.
fn skip_first_if(s: &str, lo: usize, hi: usize, c: char) -> (r: usize)
    requires
        lo <= hi <= s@.len(),
    ensures
        lo <= r <= hi,
        s@.subrange(r as int, hi as int) == drop_first_if(s@.subrange(lo as int, hi as int), c),
{
    if lo < hi && s.get_char(lo) == c {
        assert(s@.subrange(lo as int, hi as int).drop_first() =~= s@.subrange(lo + 1, hi as int));
        lo + 1
    } else {
        lo
    }
}

/// Moves `hi` back before `c` where `s[lo..hi]` ends with it.
fn skip_last_if(s: &str, lo: usize, hi: usize, c: char) -> (r: usize)
    requires
        lo <= hi <= s@.len(),
    ensures
        lo <= r <= hi,
        s@.subrange(lo as int, r as int) == drop_last_if(s@.subrange(lo as int, hi as int), c),
{
    if lo < hi && s.get_char(hi - 1) == c {
        assert(s@.subrange(lo as int, hi as int).drop_last() =~= s@.subrange(lo as int, hi - 1));
        hi - 1
    } else {
        hi
    }
}

/// Normalization is idempotent up to its anchors: normalizing the body of a
/// pattern gives the same regular expression as normalizing the pattern, for
/// every pattern whose body does not itself start with white space or `^`,
/// nor end with white space, `$` or `/`.
pub proof fn lemma_normalize_idempotent(p: Seq<char>)
    requires
        pattern_body(p).len() > 0 ==> {
            let b = pattern_body(p);
            &&& !is_white_space(b[0])
            &&& b[0] != '^'
            &&& !is_white_space(b.last())
            &&& b.last() != '$'
            &&& b.last() != '/'
        },
    ensures
        pattern_body(pattern_body(p)) == pattern_body(p),
        normalized(pattern_body(p)) == normalized(p),
{
    let b = pattern_body(p);
    if b.len() > 0 {
        assert(trim_front(b) == b);
        assert(trim_back(b) == b);
        assert(drop_first_if(b, '^') == b);
    } else {
        assert(trim_front(b) == b);
        assert(trim_back(b) == b);
    }
}

/// The pattern with surrounding white space removed, then a leading `^`, a
/// trailing `$` and a trailing `/`, one of each where present.
pub fn pattern_body_of(pattern: &str) -> (r: &str)
    ensures
        r@ == pattern_body(pattern@),
{
    let n = pattern.unicode_len();
    let ghost p = pattern@;
    assert(p.subrange(0, n as int) =~= p);
    let lo = skip_front(pattern, 0, n);
    let hi = skip_back(pattern, lo, n);
    let lo2 = skip_first_if(pattern, lo, hi, '^');
    let hi2 = skip_last_if(pattern, lo2, hi, '$');
    let hi3 = skip_last_if(pattern, lo2, hi2, '/');
    pattern.substring_char(lo2, hi3)
}

/// Turns a route pattern into the anchored regular expression that is
/// compiled for it.
pub fn normalize_pattern(pattern: &str) -> (r: String)
    ensures
        r@ == normalized(pattern@),
{
    let body = pattern_body_of(pattern);
    proof {
        reveal_strlit("^/$");
        reveal_strlit("^");
        reveal_strlit("/?$");
    }
    if body.unicode_len() == 0 {
        let r = String::from_str("^/$");
        assert(r@ =~= seq!['^', '/', '$']);
        r
    } else {
        let mut r = String::from_str("^");
        r.append(body);
        r.append("/?$");
        assert(r@ =~= seq!['^'] + body@ + seq!['/', '?', '$']);
        r
    }
}

/// The error of a request that no route takes.
#[derive(Clone, Copy, PartialEq, Eq, Structural, Debug)]
pub struct NoRoute;

/// The text that describes `NoRoute`.
pub open spec fn no_route_text() -> Seq<char> {
    seq!['n', 'o', ' ', 'r', 'o', 'u', 't', 'e']
}

impl NoRoute {
    /// Describes the error.
    pub fn description(&self) -> (r: &'static str)
        ensures
            r@ == no_route_text(),
    {
        proof {
            reveal_strlit("no route");
        }
        "no route"
    }

    /// Describes the error, as an owned string.
    pub fn to_string(&self) -> (r: String)
        ensures
            r@ == no_route_text(),
    {
        String::from_str(self.description())
    }
}

/// A registered route: a method, the compiled pattern and its target.
struct Route {
    method: Method,
    pattern: RegexPattern,
    middleware: Box<dyn Middleware>,
}

/// Whether a route table entry takes a request with `method` and `path`.
pub open spec fn route_matches(entry: (Method, Seq<char>), method: Method, path: Seq<char>) -> bool {
    entry.0.same_as(&method) && regex_captures(entry.1, path) is Some
}

/// The first entry, from `from` on, that takes the request.
pub open spec fn first_route_from(
    table: Seq<(Method, Seq<char>)>,
    method: Method,
    path: Seq<char>,
    from: int,
) -> Option<int>
    decreases table.len() - from,
{
    if from < 0 || from >= table.len() {
        None
    } else if route_matches(table[from], method, path) {
        Some(from)
    } else {
        first_route_from(table, method, path, from + 1)
    }
}

/// The route that a request goes to: the first registered one that takes it.
pub open spec fn first_route(table: Seq<(Method, Seq<char>)>, method: Method, path: Seq<char>) -> Option<
    int,
> {
    first_route_from(table, method, path, 0)
}

proof fn lemma_first_route_from(table: Seq<(Method, Seq<char>)>, method: Method, path: Seq<char>, i: int)
    requires
        0 <= i <= table.len(),
    ensures
        match first_route_from(table, method, path, i) {
            Some(k) => {
                &&& i <= k < table.len()
                &&& route_matches(table[k], method, path)
                &&& forall|j: int| i <= j < k ==> !route_matches(#[trigger] table[j], method, path)
            },
            None => forall|j: int| i <= j < table.len() ==> !route_matches(#[trigger] table[j], method, path),
        },
    decreases table.len() - i,
{
    if i < table.len() && !route_matches(table[i], method, path) {
        lemma_first_route_from(table, method, path, i + 1);
    }
}

/// First match wins: a request goes to route `k` exactly when route `k` takes
/// it and no route registered before `k` does; it goes nowhere exactly when
/// no route takes it.
pub proof fn lemma_first_match_wins(table: Seq<(Method, Seq<char>)>, method: Method, path: Seq<char>)
    ensures
        forall|k: int|
            first_route(table, method, path) == Some(k) <==> {
                &&& 0 <= k < table.len()
                &&& route_matches(#[trigger] table[k], method, path)
                &&& forall|j: int| 0 <= j < k ==> !route_matches(#[trigger] table[j], method, path)
            },
        first_route(table, method, path) is None <==> forall|j: int|
            0 <= j < table.len() ==> !route_matches(#[trigger] table[j], method, path),
{
    lemma_first_route_from(table, method, path, 0);
    assert forall|k: int|
        {
            &&& 0 <= k < table.len()
            &&& route_matches(#[trigger] table[k], method, path)
            &&& forall|j: int| 0 <= j < k ==> !route_matches(#[trigger] table[j], method, path)
        } implies first_route(table, method, path) == Some(k) by {
        match first_route(table, method, path) {
            Some(k2) => {
                if k2 < k {
                    assert(!route_matches(table[k2], method, path));
                } else if k < k2 {
                    assert(!route_matches(table[k], method, path));
                }
            },
            None => {
                assert(!route_matches(table[k], method, path));
            },
        }
    }
}

/// Registering two patterns for the same method keeps both, in registration
/// order, and a path that the earlier one takes never goes to the later one:
/// it goes to the earlier one or to a route registered before both.
pub proof fn lemma_earlier_registration_wins(
    r0: Router,
    r1: Router,
    r2: Router,
    method: Method,
    earlier: Seq<char>,
    later: Seq<char>,
    path: Seq<char>,
)
    requires
        r1.table() == r0.table().push((method, normalized(earlier))),
        r2.table() == r1.table().push((method, normalized(later))),
        regex_captures(normalized(earlier), path) is Some,
        regex_captures(normalized(later), path) is Some,
    ensures
        r2.table().len() == r0.table().len() + 2,
        r2.table()[r0.table().len() as int] == (method, normalized(earlier)),
        r2.table()[r0.table().len() + 1int] == (method, normalized(later)),
        first_route(r2.table(), method, path) matches Some(k) && k <= r0.table().len(),
{
    let n = r0.table().len() as int;
    let t = r2.table();
    assert(t[n] == (method, normalized(earlier)));
    assert(route_matches(t[n], method, path));
    lemma_first_route_from(t, method, path, 0);
}

/// Routes requests to middleware by method and path pattern.
pub struct Router {
    routes: Vec<Route>,
}

impl Router {
    /// The registered routes, in registration order: method and compiled
    /// pattern source.
    pub closed spec fn table(&self) -> Seq<(Method, Seq<char>)> {
        self.routes@.map_values(|r: Route| (r.method, r.pattern.source()))
    }

    /// Every compiled pattern knows the names of its groups.
    pub closed spec fn wf(&self) -> bool {
        forall|i: int| 0 <= i < self.routes@.len() ==> (#[trigger] self.routes@[i]).pattern.wf()
    }

    /// A router without routes.
    pub fn new() -> (r: Router)
        ensures
            r.table().len() == 0,
            r.wf(),
    {
        let r = Router { routes: Vec::new() };
        assert(r.table() =~= Seq::<(Method, Seq<char>)>::empty());
        r
    }

    fn push_route(&mut self, route: Route)
        requires
            old(self).wf(),
            route.pattern.wf(),
        ensures
            final(self).wf(),
            final(self).table() == old(self).table().push((route.method, route.pattern.source())),
    {
        self.routes.push(route);
        assert(self.table() =~= old(self).table().push((route.method, route.pattern.source())));
    }

    /// Adds a route for `method` whose pattern is `pattern`, normalized; it
    /// comes after the routes already registered. Fails, changing nothing,
    /// where the regex engine rejects the normalized pattern.
    pub fn add_route<M: Middleware + 'static>(&mut self, method: Method, pattern: &str, middleware: M) -> (r:
        Result<(), InvalidPattern>)
        requires
            old(self).wf(),
        ensures
            final(self).wf(),
            r is Ok <==> regex_accepts(normalized(pattern@)),
            r is Ok ==> final(self).table() == old(self).table().push((method, normalized(pattern@))),
            r matches Err(e) ==> final(self).table() == old(self).table() && e.pattern@ == normalized(
                pattern@,
            ),
    {
        let source = normalize_pattern(pattern);
        match RegexPattern::compile(source.as_str()) {
            Ok(compiled) => {
                let target: Box<dyn Middleware> = Box::new(middleware);
                self.push_route(Route { method, pattern: compiled, middleware: target });
                Ok(())
            },
            Err(e) => Err(e),
        }
    }

    /// Adds a route as `add_route` does and returns the router.
    pub fn with_route<M: Middleware + 'static>(self, method: Method, pattern: &str, middleware: M) -> (r:
        Result<Router, InvalidPattern>)
        requires
            self.wf(),
        ensures
            r is Ok <==> regex_accepts(normalized(pattern@)),
            r matches Ok(router) ==> router.wf() && router.table() == self.table().push(
                (method, normalized(pattern@)),
            ),
            r matches Err(e) ==> e.pattern@ == normalized(pattern@),
    {
        let mut router = self;
        match router.add_route(method, pattern, middleware) {
            Ok(()) => Ok(router),
            Err(e) => Err(e),
        }
    }

    /// The route that takes a request with `method` and `path`, and the
    /// groups its pattern captured; `NoRoute` where none takes it.
    pub fn recognize(&self, method: &Method, path: &str) -> (r: Result<(usize, OwnedCaptures), NoRoute>)
        ensures
            match r {
                Ok((k, caps)) => {
                    &&& k < self.table().len()
                    &&& first_route(self.table(), *method, path@) == Some(k as int)
                    &&& regex_captures(self.table()[k as int].1, path@) == Some(caps.groups())
                    &&& self.wf() ==> caps.names() == regex_group_names(self.table()[k as int].1)
                },
                Err(_) => first_route(self.table(), *method, path@) is None,
            },
    {
        let mut i: usize = 0;
        while i < self.routes.len()
            invariant
                i <= self.routes@.len(),
                self.table().len() == self.routes@.len(),
                first_route(self.table(), *method, path@) == first_route_from(
                    self.table(),
                    *method,
                    path@,
                    i as int,
                ),
            decreases self.routes@.len() - i,
        {
            let route = &self.routes[i];
            assert(self.table()[i as int] == (route.method, route.pattern.source()));
            if route.method.is_same(method) {
                match route.pattern.owned_captures(path) {
                    Some(caps) => {
                        proof {
                            if self.wf() {
                                assert(self.routes@[i as int].pattern.wf());
                            }
                        }
                        return Ok((i, caps));
                    },
                    None => {},
                }
            }
            i = i + 1;
        }
        Err(NoRoute)
    }

    /// Whether the `call` of the target of route `k` may turn context `c`
    /// into outcome `r`.
    pub closed spec fn target_call_post(&self, k: int, c: Context, r: Result<Context, Failure>) -> bool {
        self.routes@[k].middleware.call_post(c, r)
    }

    /// What dispatching `ctx` may return: where route `k` is the first that
    /// takes the request, what its target's `call` returns for `ctx` with the
    /// route's captures stored; where none takes it, a `NoRoute` failure with
    /// an empty 404 response.
    pub open spec fn dispatch_post(&self, ctx: Context, r: Result<Context, Failure>) -> bool {
        match first_route(self.table(), ctx.req.method, ctx.req.path@) {
            Some(k) => exists|c: Context, caps: OwnedCaptures|
                #![trigger self.target_call_post(k, c, r), caps.groups()]
                {
                    &&& c.req == ctx.req
                    &&& c.res == ctx.res
                    &&& c.ext == ctx.ext
                    &&& c.captures == Some(caps)
                    &&& regex_captures(self.table()[k].1, ctx.req.path@) == Some(caps.groups())
                    &&& self.target_call_post(k, c, r)
                },
            None => r matches Err(f) && f.err@ == no_route_text() && f.response.status
                == STATUS_NOT_FOUND && f.response.headers@.len() == 0 && f.response.body@.len()
                == 0,
        }
    }

    /// Hands the context to the route that takes its request, with the
    /// route's captures stored in it; where no route takes the request, fails
    /// with `NoRoute` and an empty 404 response.
    pub fn dispatch(&self, ctx: Context) -> (r: Result<Context, Failure>)
        requires
            !ctx.is_finished(),
        ensures
            self.dispatch_post(ctx, r),
    {
        let found = self.recognize(&ctx.req.method, ctx.req.path());
        match found {
            Ok((k, caps)) => {
                assert(self.table().len() == self.routes@.len());
                let ghost before = ctx;
                let ghost gcaps = caps;
                let mut ctx = ctx;
                ctx.captures = Some(caps);
                let r = self.routes[k].middleware.call(ctx);
                assert(self.target_call_post(k as int, ctx, r));
                r
            },
            Err(e) => {
                let response = Response::new().with_status(STATUS_NOT_FOUND);
                Err(Failure::new(e.to_string()).with_response(response))
            },
        }
    }
}

impl Default for Router {
    fn default() -> (r: Router)
        ensures
            r.table().len() == 0,
            r.wf(),
    {
        Router::new()
    }
}

impl Middleware for Router {
    open spec fn call_post(&self, ctx: Context, r: Result<Context, Failure>) -> bool {
        self.dispatch_post(ctx, r)
    }

    open spec fn after_post(&self, ctx: Context, r: Result<Context, Failure>) -> bool {
        r == Ok::<Context, Failure>(ctx)
    }

    fn call(&self, ctx: Context) -> (r: Result<Context, Failure>) {
        self.dispatch(ctx)
    }

    fn after(&self, ctx: Context) -> (r: Result<Context, Failure>) {
        ctx.next()
    }
}

} // verus!
