//! The request pipeline: one request in, exactly one response out.

use vstd::prelude::*;
use crate::dispatch::{run_route, run_route_spec};
use crate::http::{
    Request, ReqView, Response, RespView, method_not_allowed, method_not_allowed_view, not_found,
    not_found_view,
};
use crate::path::parse_parts;
use crate::pattern::{bindings, pat_matches};
use crate::router::{
    App, AppView, MatchOutcome, any_method_match, any_path_match, best_index, is_best, is_match,
    lemma_best_unique,
};

verus! {

/// The one response an application sends for a request: 404 when no
/// pattern accepts the path (or the path is malformed), 405 when one
/// does only under another method, and otherwise the outcome of the
/// best accepting route's handler.
pub open spec fn dispatch_spec(app: AppView, req: ReqView) -> RespView {
    match parse_parts(req.path) {
        Option::None => not_found_view(),
        Option::Some(parts) => {
            if any_method_match(app.routes, req.method, parts) {
                let i = best_index(app.routes, req.method, parts);
                run_route_spec(
                    app.routes[i].handler,
                    app.app_name,
                    req,
                    bindings(app.routes[i].pattern, parts),
                )
            } else if any_path_match(app.routes, parts) {
                method_not_allowed_view()
            } else {
                not_found_view()
            }
        },
    }
}

impl App {
    /// Serves one request: matches it, extracts the handler's inputs,
    /// invokes the handler and resolves its outcome.
    pub fn handle(&self, req: &Request) -> (r: Response)
        requires
            self@.wf(),
        ensures
            r@ == dispatch_spec(self@, req@),
    {
        match self.match_route(req.method, &req.path) {
            MatchOutcome::NotFound => {
                proof {
                    if parse_parts(req@.path) is Some {
                        let parts = parse_parts(req@.path).unwrap();
                        if any_method_match(self@.routes, req@.method, parts) {
                            let w = choose|i: int|
                                is_match(self@.routes, req@.method, parts, i);
                            assert(pat_matches(self@.routes[w].pattern, parts));
                            assert(any_path_match(self@.routes, parts));
                        }
                    }
                }
                not_found()
            },
            MatchOutcome::MethodNotAllowed => method_not_allowed(),
            MatchOutcome::Matched(idx, params) => {
                proof {
                    let parts = parse_parts(req@.path).unwrap();
                    assert(is_match(self@.routes, req@.method, parts, idx as int));
                    assert(any_method_match(self@.routes, req@.method, parts));
                    let b = best_index(self@.routes, req@.method, parts);
                    assert(is_best(self@.routes, req@.method, parts, b));
                    lemma_best_unique(self@.routes, req@.method, parts, b, idx as int);
                    assert(idx < self.routes@.len());
                }
                let route = &self.routes[idx];
                proof {
                    assert(route@ == self@.routes[idx as int]);
                }
                run_route(&route.handler, &self.state.app_name, req, &params)
            },
        }
    }
}

} // verus!
