//! The route table: registration with conflict detection, nested
//! scopes, and the path matcher that picks the unique best route for a
//! request.

use vstd::prelude::*;
use crate::http::Method;
use crate::dispatch::{Handler, HandlerView};
use crate::path::{parse_parts, seg_views, split_path};
use crate::pattern::{
    Pattern, SegView, bindings, compute_bindings, concat_pattern, lemma_match_overlap,
    pair_views, param_count, param_count_exec, parse_segs, pat_matches, pat_matches_exec,
    pat_overlap, pat_overlap_exec, pattern_of_path,
};

verus! {

/// A fatal registration error: serving never starts after one.
#[derive(Clone, Copy, PartialEq, Eq, Structural, Debug)]
pub enum StartupError {
    /// The route path does not start with `/`.
    BadPath,
    /// The new route genuinely overlaps an already registered one:
    /// same method, patterns that can accept a common path, and the
    /// same number of parameter segments, so neither is more specific.
    Conflict,
}

/// The shared application state, constructed once before serving and
/// read by every request.
pub struct AppState {
    pub app_name: Vec<u8>,
}

impl View for AppState {
    type V = Seq<u8>;

    open spec fn view(&self) -> Seq<u8> {
        self.app_name@
    }
}

impl AppState {
    /// Builds the state container.
    pub fn new(app_name: Vec<u8>) -> (r: AppState)
        ensures
            r@ == app_name@,
    {
        AppState { app_name }
    }
}

/// One registered route: a method and a pattern bound to a handler.
pub struct Route {
    pub method: Method,
    pub pattern: Pattern,
    pub handler: Handler,
}

/// Ghost view of a route.
pub struct RouteView {
    pub method: Method,
    pub pattern: Seq<SegView>,
    pub handler: HandlerView,
}

impl View for Route {
    type V = RouteView;

    open spec fn view(&self) -> RouteView {
        RouteView { method: self.method, pattern: self.pattern@, handler: self.handler@ }
    }
}

/// The route view a registration produces.
pub open spec fn new_route_view(m: Method, pat: Seq<SegView>, h: HandlerView) -> RouteView {
    RouteView { method: m, pattern: pat, handler: h }
}

/// Two routes are compatible when they cannot leave a request
/// ambiguous: different methods, patterns that share no path, or a
/// different parameter count (the tie-break picks the fewer).
pub open spec fn routes_compatible(a: RouteView, b: RouteView) -> bool {
    !(a.method == b.method && pat_overlap(a.pattern, b.pattern) && param_count(a.pattern)
        == param_count(b.pattern))
}

/// A well-formed route table: every pair of routes is compatible.
pub open spec fn table_wf(rs: Seq<RouteView>) -> bool {
    forall|i: int, j: int| 0 <= i < j < rs.len() ==> routes_compatible(rs[i], rs[j])
}

/// An application: its route table and its shared state.
pub struct App {
    pub routes: Vec<Route>,
    pub state: AppState,
}

/// Ghost view of an application.
pub struct AppView {
    pub routes: Seq<RouteView>,
    pub app_name: Seq<u8>,
}

impl AppView {
    /// A well-formed application has a well-formed route table.
    pub open spec fn wf(self) -> bool {
        table_wf(self.routes)
    }
}

impl View for App {
    type V = AppView;

    open spec fn view(&self) -> AppView {
        AppView {
            routes: self.routes@.map_values(|r: Route| r@),
            app_name: self.state@,
        }
    }
}

/// Whether a route under `(m, p)` cannot stand beside an existing one;
/// compatibility never depends on the handlers.
fn conflicts_with(a: &Route, m: Method, p: &Pattern) -> (r: bool)
    ensures
        r == (a@.method == m && pat_overlap(a@.pattern, p@) && param_count(a@.pattern)
            == param_count(p@)),
{
    if !(a.method == m) {
        return false;
    }
    if !pat_overlap_exec(&a.pattern, p) {
        return false;
    }
    let pa = param_count_exec(&a.pattern);
    let pb = param_count_exec(p);
    pa == pb
}

/// Route `i` accepts the request: right method, pattern accepts the
/// split path.
pub open spec fn is_match(rs: Seq<RouteView>, m: Method, parts: Seq<Seq<u8>>, i: int) -> bool {
    &&& 0 <= i < rs.len()
    &&& rs[i].method == m
    &&& pat_matches(rs[i].pattern, parts)
}

/// Some route's pattern accepts the split path, under any method.
pub open spec fn any_path_match(rs: Seq<RouteView>, parts: Seq<Seq<u8>>) -> bool {
    exists|i: int| 0 <= i < rs.len() && pat_matches(rs[i].pattern, parts)
}

/// Some route accepts the request, method included.
pub open spec fn any_method_match(rs: Seq<RouteView>, m: Method, parts: Seq<Seq<u8>>) -> bool {
    exists|i: int| is_match(rs, m, parts, i)
}

/// Route `i` accepts the request and no accepting route is more
/// specific.
pub open spec fn is_best(rs: Seq<RouteView>, m: Method, parts: Seq<Seq<u8>>, i: int) -> bool {
    &&& is_match(rs, m, parts, i)
    &&& forall|j: int|
        is_match(rs, m, parts, j) ==> param_count(rs[i].pattern) <= param_count(rs[j].pattern)
}

/// The index of the best accepting route.
pub open spec fn best_index(rs: Seq<RouteView>, m: Method, parts: Seq<Seq<u8>>) -> int {
    choose|i: int| is_best(rs, m, parts, i)
}

/// In a well-formed table the best accepting route is unique: two
/// accepting routes overlap, so compatibility forces their parameter
/// counts apart, and a best route ties only with itself.
pub proof fn lemma_best_unique(
    rs: Seq<RouteView>,
    m: Method,
    parts: Seq<Seq<u8>>,
    i: int,
    j: int,
)
    requires
        table_wf(rs),
        is_best(rs, m, parts, i),
        is_best(rs, m, parts, j),
    ensures
        i == j,
{
    if i != j {
        assert(is_match(rs, m, parts, i));
        assert(is_match(rs, m, parts, j));
        lemma_match_overlap(rs[i].pattern, rs[j].pattern, parts);
        assert(param_count(rs[i].pattern) <= param_count(rs[j].pattern));
        assert(param_count(rs[j].pattern) <= param_count(rs[i].pattern));
        if i < j {
            assert(routes_compatible(rs[i], rs[j]));
        } else {
            assert(routes_compatible(rs[j], rs[i]));
            lemma_overlap_sym(rs[j].pattern, rs[i].pattern);
        }
    }
}

/// Pattern overlap is symmetric.
pub proof fn lemma_overlap_sym(p: Seq<SegView>, q: Seq<SegView>)
    requires
        pat_overlap(p, q),
    ensures
        pat_overlap(q, p),
{
    assert forall|i: int| 0 <= i < q.len() implies crate::pattern::seg_overlap(q[i], p[i]) by {
        assert(crate::pattern::seg_overlap(p[i], q[i]));
    }
}

/// A path-prefix grouping of routes: each route it holds is finally
/// registered under the prefix followed by the route's own pattern.
pub struct Scope {
    pub prefix: Pattern,
    pub routes: Vec<Route>,
}

/// Ghost view of a scope.
pub struct ScopeView {
    pub prefix: Seq<SegView>,
    pub routes: Seq<RouteView>,
}

impl View for Scope {
    type V = ScopeView;

    open spec fn view(&self) -> ScopeView {
        ScopeView { prefix: self.prefix@, routes: self.routes@.map_values(|r: Route| r@) }
    }
}

/// A scope route under the scope's prefix.
pub open spec fn prefixed_route(prefix: Seq<SegView>, r: RouteView) -> RouteView {
    RouteView { method: r.method, pattern: prefix + r.pattern, handler: r.handler }
}

/// The routes a scope finally registers: each of its routes under the
/// scope's prefix.
pub open spec fn expand_scope(s: ScopeView) -> Seq<RouteView> {
    s.routes.map_values(|r: RouteView| prefixed_route(s.prefix, r))
}

/// Sequential registration of a batch of routes: each must be
/// compatible with everything registered before it, the batch's own
/// earlier routes included.
pub open spec fn add_all(rs: Seq<RouteView>, adds: Seq<RouteView>) -> Result<
    Seq<RouteView>,
    StartupError,
>
    decreases adds.len(),
{
    if adds.len() == 0 {
        Result::Ok(rs)
    } else if forall|i: int| 0 <= i < rs.len() ==> routes_compatible(rs[i], adds[0]) {
        add_all(rs.push(adds[0]), adds.skip(1))
    } else {
        Result::Err(StartupError::Conflict)
    }
}

impl Scope {
    /// A scope under a prefix path; fails on a path that does not
    /// start with `/`.
    pub fn new(prefix_path: &Vec<u8>) -> (r: Result<Scope, StartupError>)
        ensures
            match r {
                Result::Ok(s) => {
                    &&& pattern_of_path(prefix_path@) is Some
                    &&& s@.prefix == pattern_of_path(prefix_path@).unwrap()
                    &&& s@.routes == Seq::<RouteView>::empty()
                },
                Result::Err(e) => {
                    &&& e == StartupError::BadPath
                    &&& pattern_of_path(prefix_path@) is None
                },
            },
    {
        let parts = match split_path(prefix_path) {
            Some(p) => p,
            None => {
                return Err(StartupError::BadPath);
            },
        };
        let prefix = parse_segs(&parts);
        let s = Scope { prefix, routes: Vec::new() };
        proof {
            assert(s@.routes =~= Seq::<RouteView>::empty());
        }
        Ok(s)
    }

    /// Adds a route, relative to the scope's prefix. Conflicts are
    /// detected later, when the scope is registered on an application.
    pub fn route(&mut self, method: Method, path: &Vec<u8>, handler: Handler) -> (r: Result<
        (),
        StartupError,
    >)
        ensures
            final(self)@.prefix == old(self)@.prefix,
            match r {
                Result::Ok(_) => {
                    &&& pattern_of_path(path@) is Some
                    &&& final(self)@.routes == old(self)@.routes.push(
                        new_route_view(method, pattern_of_path(path@).unwrap(), handler@),
                    )
                },
                Result::Err(e) => {
                    &&& e == StartupError::BadPath
                    &&& pattern_of_path(path@) is None
                    &&& final(self)@ == old(self)@
                },
            },
    {
        let parts = match split_path(path) {
            Some(p) => p,
            None => {
                return Err(StartupError::BadPath);
            },
        };
        let pat = parse_segs(&parts);
        proof {
            assert(pat@ == pattern_of_path(path@).unwrap());
        }
        let ghost nrv = new_route_view(method, pat@, handler@);
        let ghost old_routes = self@.routes;
        self.routes.push(Route { method, pattern: pat, handler });
        proof {
            assert(self@.routes =~= old_routes.push(nrv));
        }
        Ok(())
    }
}

/// What the path matcher reports for one request.
pub enum MatchOutcome {
    /// The best accepting route's index, with the parameter bindings
    /// its pattern produced.
    Matched(usize, Vec<(Vec<u8>, Vec<u8>)>),
    /// No route's pattern accepts the path.
    NotFound,
    /// A pattern accepts the path, but only under another method.
    MethodNotAllowed,
}

impl App {
    /// An application with no routes and an empty state.
    pub fn new() -> (r: App)
        ensures
            r@.routes == Seq::<RouteView>::empty(),
            r@.app_name == Seq::<u8>::empty(),
            r@.wf(),
    {
        let r = App { routes: Vec::new(), state: AppState { app_name: Vec::new() } };
        proof {
            assert(r@.routes =~= Seq::<RouteView>::empty());
            assert(r@.app_name =~= Seq::<u8>::empty());
        }
        r
    }

    /// Installs the shared state; the route table is untouched.
    pub fn data(&mut self, state: AppState)
        ensures
            final(self)@.routes == old(self)@.routes,
            final(self)@.app_name == state@,
    {
        self.state = state;
    }

    /// Registers a route under a parsed pattern. Succeeds if and only
    /// if the new route is compatible with every registered one; the
    /// table is untouched on failure.
    pub fn add_route(&mut self, method: Method, pattern: Pattern, handler: Handler) -> (r: Result<
        (),
        StartupError,
    >)
        ensures
            final(self)@.app_name == old(self)@.app_name,
            match r {
                Result::Ok(_) => {
                    &&& forall|i: int|
                        0 <= i < old(self)@.routes.len() ==> routes_compatible(
                            old(self)@.routes[i],
                            new_route_view(method, pattern@, handler@),
                        )
                    &&& final(self)@.routes == old(self)@.routes.push(
                        new_route_view(method, pattern@, handler@),
                    )
                    &&& old(self)@.wf() ==> final(self)@.wf()
                },
                Result::Err(e) => {
                    &&& e == StartupError::Conflict
                    &&& final(self)@ == old(self)@
                    &&& exists|i: int|
                        0 <= i < old(self)@.routes.len() && !routes_compatible(
                            old(self)@.routes[i],
                            new_route_view(method, pattern@, handler@),
                        )
                },
            },
    {
        let ghost nrv = new_route_view(method, pattern@, handler@);
        let mut i: usize = 0;
        while i < self.routes.len()
            invariant
                i <= self.routes@.len(),
                nrv == new_route_view(method, pattern@, handler@),
                forall|k: int| 0 <= k < i ==> routes_compatible(self.routes@[k]@, nrv),
            decreases self.routes.len() - i,
        {
            if conflicts_with(&self.routes[i], method, &pattern) {
                proof {
                    assert(self@.routes == old(self)@.routes);
                    assert(!routes_compatible(
                        old(self)@.routes[i as int],
                        new_route_view(method, pattern@, handler@),
                    ));
                }
                return Err(StartupError::Conflict);
            }
            i += 1;
        }
        let nr = Route { method, pattern, handler };
        proof {
            assert(nr@ == nrv);
        }
        let ghost old_routes = self@.routes;
        self.routes.push(nr);
        proof {
            assert(self@.routes =~= old_routes.push(nrv));
            if table_wf(old_routes) {
                let nrs = self@.routes;
                assert forall|a: int, b: int| 0 <= a < b < nrs.len() implies routes_compatible(
                    nrs[a],
                    nrs[b],
                ) by {
                    if b < old_routes.len() {
                        assert(routes_compatible(old_routes[a], old_routes[b]));
                    } else {
                        assert(nrs[b] == nrv);
                        assert(routes_compatible(old_routes[a], nrv));
                    }
                }
            }
        }
        Ok(())
    }

    /// Registers a route under a raw path, as `route("/x", ...)` does
    /// in a fluent builder. Fails on a path that does not start with
    /// `/`, and on a genuine overlap with a registered route.
    pub fn route(&mut self, method: Method, path: &Vec<u8>, handler: Handler) -> (r: Result<
        (),
        StartupError,
    >)
        ensures
            final(self)@.app_name == old(self)@.app_name,
            match r {
                Result::Ok(_) => {
                    &&& pattern_of_path(path@) is Some
                    &&& final(self)@.routes == old(self)@.routes.push(
                        new_route_view(method, pattern_of_path(path@).unwrap(), handler@),
                    )
                    &&& forall|i: int|
                        0 <= i < old(self)@.routes.len() ==> routes_compatible(
                            old(self)@.routes[i],
                            new_route_view(method, pattern_of_path(path@).unwrap(), handler@),
                        )
                    &&& old(self)@.wf() ==> final(self)@.wf()
                },
                Result::Err(e) => {
                    &&& final(self)@ == old(self)@
                    &&& match e {
                        StartupError::BadPath => pattern_of_path(path@) is None,
                        StartupError::Conflict => pattern_of_path(path@) is Some
                            && exists|i: int|
                            0 <= i < old(self)@.routes.len() && !routes_compatible(
                                old(self)@.routes[i],
                                new_route_view(method, pattern_of_path(path@).unwrap(), handler@),
                            ),
                    }
                },
            },
    {
        let parts = match split_path(path) {
            Some(p) => p,
            None => {
                return Err(StartupError::BadPath);
            },
        };
        let pat = parse_segs(&parts);
        proof {
            assert(pat@ == pattern_of_path(path@).unwrap());
        }
        self.add_route(method, pat, handler)
    }

    /// Registers a whole scope: every scope route goes in, in order,
    /// under the scope's prefix, each checked for conflicts against
    /// everything registered before it. On success the table grows by
    /// exactly the expanded scope; on a conflict the routes before the
    /// conflicting one stay registered, a fatal startup condition.
    pub fn service(&mut self, scope: Scope) -> (r: Result<(), StartupError>)
        ensures
            final(self)@.app_name == old(self)@.app_name,
            match r {
                Result::Ok(_) => {
                    &&& final(self)@.routes == old(self)@.routes + expand_scope(scope@)
                    &&& add_all(old(self)@.routes, expand_scope(scope@)) == Result::<
                        Seq<RouteView>,
                        StartupError,
                    >::Ok(final(self)@.routes)
                    &&& old(self)@.wf() ==> final(self)@.wf()
                },
                Result::Err(e) => {
                    &&& add_all(old(self)@.routes, expand_scope(scope@)) == Result::<
                        Seq<RouteView>,
                        StartupError,
                    >::Err(e)
                    &&& exists|k: int|
                        0 <= k <= expand_scope(scope@).len() && final(self)@.routes == old(
                            self,
                        )@.routes + expand_scope(scope@).take(k)
                },
            },
    {
        let ghost exp = expand_scope(scope@);
        let ghost base = self@.routes;
        let mut scope = scope;
        let ghost prefix_v = scope@.prefix;
        let total: usize = scope.routes.len();
        proof {
            assert(exp.len() == total);
        }
        let mut j: usize = 0;
        proof {
            assert(exp.take(0) =~= Seq::<RouteView>::empty());
            assert(base + exp.take(0) =~= base);
            assert(exp.skip(0) =~= exp);
            assert(exp.len() == scope.routes@.len());
        }
        #[verifier::loop_isolation(false)]
        while scope.routes.len() > 0
            invariant
                scope@.prefix == prefix_v,
                j + scope.routes@.len() == exp.len(),
                exp.len() <= usize::MAX,
                self@.routes == base + exp.take(j as int),
                self@.app_name == old(self)@.app_name,
                base == old(self)@.routes,
                expand_scope(scope@) == exp.skip(j as int),
                add_all(base, exp) == add_all(self@.routes, exp.skip(j as int)),
                table_wf(base) ==> table_wf(self@.routes),
            decreases scope.routes.len(),
        {
            let ghost pre_routes = self@.routes;
            let ghost pre_scope = scope@.routes;
            let rel = scope.routes.remove(0);
            proof {
                assert(scope@.routes =~= pre_scope.skip(1));
                assert(rel@ == pre_scope[0]);
                assert(exp.skip(j as int)[0] == prefixed_route(prefix_v, rel@));
            }
            let Route { method, pattern, handler } = rel;
            let full = concat_pattern(&scope.prefix, &pattern);
            proof {
                assert(full@ == prefix_v + pattern@);
                assert(new_route_view(method, full@, handler@) == exp.skip(j as int)[0]);
            }
            let ghost nrv = new_route_view(method, full@, handler@);
            match self.add_route(method, full, handler) {
                Ok(_) => {
                    proof {
                        assert(self@.routes == pre_routes.push(nrv));
                        assert(self@.routes =~= base + exp.take(j + 1));
                        let cur = scope@;
                        let entry = (ScopeView { prefix: prefix_v, routes: pre_scope });
                        assert(expand_scope(entry) == exp.skip(j as int));
                        assert forall|k: int|
                            0 <= k < cur.routes.len() implies #[trigger] expand_scope(cur)[k]
                            == exp.skip(j + 1)[k] by {
                            assert(expand_scope(cur)[k] == prefixed_route(
                                prefix_v,
                                cur.routes[k],
                            ));
                            assert(cur.routes[k] == pre_scope[k + 1]);
                            assert(expand_scope(entry)[k + 1] == prefixed_route(
                                prefix_v,
                                pre_scope[k + 1],
                            ));
                            assert(exp.skip(j as int)[k + 1] == exp[j + 1 + k]);
                        }
                        assert(expand_scope(scope@) =~= exp.skip(j + 1));
                        assert(exp.skip(j as int).len() > 0);
                        assert(exp.skip(j as int).skip(1) =~= exp.skip(j + 1));
                        assert(add_all(pre_routes, exp.skip(j as int)) == add_all(
                            pre_routes.push(nrv),
                            exp.skip(j + 1),
                        ));
                    }
                    j += 1;
                },
                Err(e) => {
                    proof {
                        assert(exp.skip(j as int).len() > 0);
                        assert(!(forall|i: int|
                            0 <= i < pre_routes.len() ==> routes_compatible(
                                pre_routes[i],
                                exp.skip(j as int)[0],
                            )));
                        assert(add_all(pre_routes, exp.skip(j as int)) == Result::<
                            Seq<RouteView>,
                            StartupError,
                        >::Err(StartupError::Conflict));
                        assert(e == StartupError::Conflict);
                        assert(self@.routes == old(self)@.routes + exp.take(j as int));
                        assert(exists|k: int|
                            0 <= k <= exp.len() && self@.routes == old(self)@.routes + exp.take(
                                k,
                            )) by {
                            assert(0 <= j as int <= exp.len() && self@.routes == old(self)@.routes
                                + exp.take(j as int));
                        }
                    }
                    return Err(e);
                },
            }
        }
        proof {
            assert(exp.skip(j as int).len() == 0);
            assert(j == exp.len());
            assert(exp.take(j as int) =~= exp);
            assert(add_all(self@.routes, exp.skip(j as int)) == Result::<
                Seq<RouteView>,
                StartupError,
            >::Ok(self@.routes));
        }
        Ok(())
    }

    /// The path matcher: reports the unique best accepting route with
    /// its bindings, or that no pattern accepts the path, or that one
    /// does only under another method.
    pub fn match_route(&self, method: Method, path: &Vec<u8>) -> (r: MatchOutcome)
        ensures
            match r {
                MatchOutcome::Matched(idx, params) => {
                    &&& parse_parts(path@) is Some
                    &&& is_best(self@.routes, method, parse_parts(path@).unwrap(), idx as int)
                    &&& pair_views(params@) == bindings(
                        self@.routes[idx as int].pattern,
                        parse_parts(path@).unwrap(),
                    )
                },
                MatchOutcome::NotFound => parse_parts(path@) is None || !any_path_match(
                    self@.routes,
                    parse_parts(path@).unwrap(),
                ),
                MatchOutcome::MethodNotAllowed => {
                    &&& parse_parts(path@) is Some
                    &&& any_path_match(self@.routes, parse_parts(path@).unwrap())
                    &&& !any_method_match(self@.routes, method, parse_parts(path@).unwrap())
                },
            },
    {
        let parts = match split_path(path) {
            Some(p) => p,
            None => {
                return MatchOutcome::NotFound;
            },
        };
        let ghost pv = seg_views(parts@);
        let ghost rs = self@.routes;
        let mut best: usize = 0;
        let mut best_pc: usize = 0;
        let mut have_best = false;
        let mut any_path = false;
        let mut i: usize = 0;
        while i < self.routes.len()
            invariant
                i <= self.routes@.len(),
                rs == self@.routes,
                pv == seg_views(parts@),
                any_path == exists|k: int| 0 <= k < i && pat_matches(rs[k].pattern, pv),
                have_best ==> {
                    &&& best < i
                    &&& is_match(rs, method, pv, best as int)
                    &&& best_pc == param_count(rs[best as int].pattern)
                    &&& forall|k: int|
                        0 <= k < i && is_match(rs, method, pv, k) ==> best_pc <= param_count(
                            rs[k].pattern,
                        )
                },
                !have_best ==> forall|k: int| 0 <= k < i ==> !is_match(rs, method, pv, k),
            decreases self.routes.len() - i,
        {
            proof {
                assert(rs[i as int] == self.routes@[i as int]@);
            }
            let route = &self.routes[i];
            if pat_matches_exec(&route.pattern, &parts) {
                any_path = true;
                proof {
                    assert(pat_matches(rs[i as int].pattern, pv));
                }
                if route.method == method {
                    let pc = param_count_exec(&route.pattern);
                    proof {
                        assert(is_match(rs, method, pv, i as int));
                    }
                    if !have_best || pc < best_pc {
                        best = i;
                        best_pc = pc;
                        have_best = true;
                    }
                }
            }
            i += 1;
        }
        if have_best {
            proof {
                assert(is_best(rs, method, pv, best as int));
                assert(pat_matches(rs[best as int].pattern, pv));
            }
            let params = compute_bindings(&self.routes[best].pattern, &parts);
            MatchOutcome::Matched(best, params)
        } else if any_path {
            proof {
                assert(!any_method_match(rs, method, pv));
            }
            MatchOutcome::MethodNotAllowed
        } else {
            MatchOutcome::NotFound
        }
    }
}

} // verus!
