//! The routing core's general guarantees, stated and proved once.

use vstd::prelude::*;
use vstd::string::{StringSliceAdditionalSpecFns, is_ascii, is_ascii_spec_bytes};
use crate::demo::{demo_routes, pat_root};
use crate::engine::dispatch_spec;
use crate::http::{Method, ReqView, RespView};
use crate::path::parse_parts;
use crate::pattern::{SegView, param_count, pat_matches, seg_matches};
use crate::router::{
    AppView, RouteView, any_method_match, best_index, is_best, is_match, lemma_best_unique,
    new_route_view, prefixed_route,
};
use crate::dispatch::HandlerView;

verus! {

/// Responses are a function of the route table, the shared state and
/// the request alone. Issuing one request any number of times, or from
/// any number of concurrent connections, yields byte-identical
/// responses: there is no hidden per-request state.
pub proof fn lemma_dispatch_deterministic(app: AppView, r1: ReqView, r2: ReqView)
    requires
        r1 == r2,
    ensures
        dispatch_spec(app, r1) == dispatch_spec(app, r2),
{
}

/// Scope prefixing is transparent: a pattern built as prefix plus rest
/// accepts a path exactly when the prefix accepts the leading segments
/// and the rest accepts the remainder. A route reached by descending
/// into a scope therefore resolves as the same route registered
/// directly under the concatenated path.
pub proof fn lemma_scope_prefix_transparent(
    prefix: Seq<SegView>,
    rest: Seq<SegView>,
    parts: Seq<Seq<u8>>,
)
    ensures
        pat_matches(prefix + rest, parts) <==> {
            &&& prefix.len() <= parts.len()
            &&& pat_matches(prefix, parts.take(prefix.len() as int))
            &&& pat_matches(rest, parts.skip(prefix.len() as int))
        },
{
    let n = prefix.len() as int;
    let whole = prefix + rest;
    if pat_matches(whole, parts) {
        assert(parts.len() == prefix.len() + rest.len());
        assert forall|k: int| 0 <= k < n implies seg_matches(
            prefix[k],
            parts.take(n)[k],
        ) by {
            assert(whole[k] == prefix[k]);
            assert(seg_matches(whole[k], parts[k]));
        }
        assert forall|k: int| 0 <= k < rest.len() implies seg_matches(
            rest[k],
            parts.skip(n)[k],
        ) by {
            assert(whole[n + k] == rest[k]);
            assert(seg_matches(whole[n + k], parts[n + k]));
        }
        assert(pat_matches(prefix, parts.take(n)));
        assert(pat_matches(rest, parts.skip(n)));
    }
    if prefix.len() <= parts.len() && pat_matches(prefix, parts.take(n)) && pat_matches(
        rest,
        parts.skip(n),
    ) {
        assert(whole.len() == parts.len());
        assert forall|k: int| 0 <= k < whole.len() implies seg_matches(whole[k], parts[k]) by {
            if k < n {
                assert(whole[k] == prefix[k]);
                assert(seg_matches(prefix[k], parts.take(n)[k]));
            } else {
                assert(whole[k] == rest[k - n]);
                assert(seg_matches(rest[k - n], parts.skip(n)[k - n]));
            }
        }
    }
}

/// A scope entry is exactly the direct entry: expanding a scope route
/// under its prefix yields the very route view that a direct
/// registration of the concatenated pattern yields.
pub proof fn lemma_scope_entry_is_direct(prefix: Seq<SegView>, r: RouteView)
    ensures
        prefixed_route(prefix, r) == new_route_view(r.method, prefix + r.pattern, r.handler),
{
}

/// Two applications with the same route table and the same shared
/// state resolve every request identically, however their tables were
/// built.
pub proof fn lemma_same_table_same_dispatch(a1: AppView, a2: AppView, req: ReqView)
    requires
        a1.routes == a2.routes,
        a1.app_name == a2.app_name,
    ensures
        dispatch_spec(a1, req) == dispatch_spec(a2, req),
{
    assert(a1 == a2);
}

/// Shared state is fully visible: when the best route for a request
/// carries the greeting handler, the response body is the configured
/// prefix followed by the complete shared application name — every
/// request reads the same fully constructed state, never a partial or
/// stale copy.
pub proof fn lemma_state_fully_visible(app: AppView, req: ReqView, i: int, prefix: Seq<u8>)
    requires
        app.wf(),
        parse_parts(req.path) is Some,
        is_best(app.routes, req.method, parse_parts(req.path).unwrap(), i),
        app.routes[i].handler == (HandlerView::Greet { prefix }),
    ensures
        dispatch_spec(app, req) == (RespView { status: 200, body: prefix + app.app_name }),
{
    let parts = parse_parts(req.path).unwrap();
    assert(is_match(app.routes, req.method, parts, i));
    assert(any_method_match(app.routes, req.method, parts));
    let b = best_index(app.routes, req.method, parts);
    assert(is_best(app.routes, req.method, parts, b));
    lemma_best_unique(app.routes, req.method, parts, b, i);
}

/// On the example table, every `GET /` request — whatever its query or
/// body, from however many concurrent connections — answers 200 with
/// the greeting prefix followed by the entire shared application name,
/// whatever value that state holds.
pub proof fn lemma_front_page_shows_state(name: Seq<u8>, req: ReqView)
    requires
        req.path == "/".spec_bytes(),
        req.method == Method::Get,
    ensures
        dispatch_spec(AppView { routes: demo_routes(), app_name: name }, req) == (RespView {
            status: 200,
            body: "Hello World ".spec_bytes() + name,
        }),
{
    reveal_strlit("/");
    let root = "/";
    assert(root@ =~= seq!['/']);
    assert(is_ascii(root));
    is_ascii_spec_bytes(root);
    let b = root.spec_bytes();
    assert(b =~= seq![47u8]);
    assert(b.skip(1) =~= Seq::<u8>::empty());
    let parts = parse_parts(req.path).unwrap();
    assert(parts =~~= seq![Seq::<u8>::empty()]);
    let app = (AppView { routes: demo_routes(), app_name: name });
    assert(seg_matches(pat_root()[0], parts[0]));
    assert(pat_matches(pat_root(), parts));
    assert(is_match(app.routes, req.method, parts, 0));
    assert(param_count(pat_root()) == 0) by {
        assert(pat_root().drop_last() =~= Seq::<SegView>::empty());
        assert(param_count(Seq::<SegView>::empty()) == 0);
        assert(pat_root().last() == pat_root()[0]);
        assert(!(pat_root().last() is Param));
    }
    assert(is_best(app.routes, req.method, parts, 0));
    crate::demo::lemma_demo_table_wf();
    let b_i = best_index(app.routes, req.method, parts);
    assert(is_best(app.routes, req.method, parts, b_i));
    lemma_best_unique(app.routes, req.method, parts, b_i, 0);
}

} // verus!
