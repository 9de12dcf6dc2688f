//! The example application: a handful of canned handlers bound to
//! fixed paths, one of them through a nested scope and one through a
//! separate configuration function.

use vstd::prelude::*;
use vstd::string::{StrSliceExecFns, StringSliceAdditionalSpecFns, is_ascii, is_ascii_spec_bytes};
use crate::dispatch::{Handler, HandlerView};
use crate::http::Method;
use crate::pattern::{SegView, lemma_one_seg_pattern, pattern_of_path, seg_of};
use crate::router::{
    App, AppState, RouteView, Scope, StartupError, new_route_view, prefixed_route,
    routes_compatible, table_wf,
};

verus! {

/// A plain greeting handler.
pub fn example() -> (h: Handler)
    ensures
        h@ == (HandlerView::Fixed { status: 200, body: "Hello world".spec_bytes() }),
{
    Handler::Fixed { status: 200, body: "Hello world".as_bytes_vec() }
}

/// A handler that answers with one of two response kinds: a 400 with
/// its own body when the request carries no data, otherwise a plain
/// 200 text.
pub fn either_example() -> (h: Handler)
    ensures
        h@ == (HandlerView::BranchOnBody {
            bad: "Bad Data".spec_bytes(),
            good: "Hello!".spec_bytes(),
        }),
{
    Handler::BranchOnBody {
        bad: "Bad Data".as_bytes_vec(),
        good: "Hello!".as_bytes_vec(),
    }
}

/// The front-page handler: greets with the shared application name.
pub fn index() -> (h: Handler)
    ensures
        h@ == (HandlerView::Greet { prefix: "Hello World ".spec_bytes() }),
{
    Handler::Greet { prefix: "Hello World ".as_bytes_vec() }
}

/// A second canned handler.
pub fn index2() -> (h: Handler)
    ensures
        h@ == (HandlerView::Fixed { status: 200, body: "Hello world again!".spec_bytes() }),
{
    Handler::Fixed { status: 200, body: "Hello world again!".as_bytes_vec() }
}

/// The handler served under `/hello`.
pub fn index3() -> (h: Handler)
    ensures
        h@ == (HandlerView::Fixed { status: 200, body: "Attribute macro get".spec_bytes() }),
{
    Handler::Fixed { status: 200, body: "Attribute macro get".as_bytes_vec() }
}

/// The pattern of the front page, `/`.
pub open spec fn pat_root() -> Seq<SegView> {
    seq![SegView::Lit("/".spec_bytes().skip(1))]
}

/// The pattern of `/again`.
pub open spec fn pat_again() -> Seq<SegView> {
    seq![SegView::Lit("/again".spec_bytes().skip(1))]
}

/// The pattern of `/hello`.
pub open spec fn pat_hello() -> Seq<SegView> {
    seq![SegView::Lit("/hello".spec_bytes().skip(1))]
}

/// The pattern of `/app/app_path`: the scope prefix followed by the
/// scoped route's own segment.
pub open spec fn pat_scoped() -> Seq<SegView> {
    seq![
        SegView::Lit("/app".spec_bytes().skip(1)),
        SegView::Lit("/app_path".spec_bytes().skip(1)),
    ]
}

/// The pattern of `/conf`.
pub open spec fn pat_conf() -> Seq<SegView> {
    seq![SegView::Lit("/conf".spec_bytes().skip(1))]
}

/// The example application's route table, in registration order.
pub open spec fn demo_routes() -> Seq<RouteView> {
    seq![
        new_route_view(
            Method::Get,
            pat_root(),
            (HandlerView::Greet { prefix: "Hello World ".spec_bytes() }),
        ),
        new_route_view(
            Method::Get,
            pat_again(),
            (HandlerView::Fixed { status: 200, body: "Hello world again!".spec_bytes() }),
        ),
        new_route_view(
            Method::Get,
            pat_hello(),
            (HandlerView::Fixed { status: 200, body: "Attribute macro get".spec_bytes() }),
        ),
        new_route_view(
            Method::Get,
            pat_scoped(),
            (HandlerView::Fixed { status: 200, body: "Scoped response".spec_bytes() }),
        ),
        new_route_view(
            Method::Get,
            pat_conf(),
            (HandlerView::Fixed { status: 200, body: "config route".spec_bytes() }),
        ),
    ]
}

/// The example paths parse to the expected patterns, and the expected
/// table is conflict-free.
proof fn lemma_demo_table()
    ensures
        pattern_of_path("/".spec_bytes()) == Some(pat_root()),
        pattern_of_path("/again".spec_bytes()) == Some(pat_again()),
        pattern_of_path("/hello".spec_bytes()) == Some(pat_hello()),
        pattern_of_path("/app".spec_bytes()) == Some(
            seq![SegView::Lit("/app".spec_bytes().skip(1))],
        ),
        pattern_of_path("/app_path".spec_bytes()) == Some(
            seq![SegView::Lit("/app_path".spec_bytes().skip(1))],
        ),
        pattern_of_path("/conf".spec_bytes()) == Some(pat_conf()),
        table_wf(demo_routes()),
{
    reveal_strlit("/");
    reveal_strlit("/again");
    reveal_strlit("/hello");
    reveal_strlit("/app");
    reveal_strlit("/app_path");
    reveal_strlit("/conf");

    let root = "/";
    assert(root@ =~= seq!['/']);
    assert(is_ascii(root));
    is_ascii_spec_bytes(root);
    let b_root = root.spec_bytes();
    assert(b_root =~= seq![47u8]);
    assert(b_root.skip(1) =~= Seq::<u8>::empty());
    assert(seg_of(b_root.skip(1)) == SegView::Lit(b_root.skip(1)));
    lemma_one_seg_pattern(b_root);

    let again = "/again";
    assert(again@ =~= seq!['/', 'a', 'g', 'a', 'i', 'n']);
    assert(is_ascii(again));
    is_ascii_spec_bytes(again);
    let b_again = again.spec_bytes();
    assert(b_again =~= seq![47u8, 97u8, 103u8, 97u8, 105u8, 110u8]);
    assert(b_again.skip(1) =~= seq![97u8, 103u8, 97u8, 105u8, 110u8]);
    assert(seg_of(b_again.skip(1)) == SegView::Lit(b_again.skip(1)));
    lemma_one_seg_pattern(b_again);

    let hello = "/hello";
    assert(hello@ =~= seq!['/', 'h', 'e', 'l', 'l', 'o']);
    assert(is_ascii(hello));
    is_ascii_spec_bytes(hello);
    let b_hello = hello.spec_bytes();
    assert(b_hello =~= seq![47u8, 104u8, 101u8, 108u8, 108u8, 111u8]);
    assert(b_hello.skip(1) =~= seq![104u8, 101u8, 108u8, 108u8, 111u8]);
    assert(seg_of(b_hello.skip(1)) == SegView::Lit(b_hello.skip(1)));
    lemma_one_seg_pattern(b_hello);

    let appp = "/app";
    assert(appp@ =~= seq!['/', 'a', 'p', 'p']);
    assert(is_ascii(appp));
    is_ascii_spec_bytes(appp);
    let b_app = appp.spec_bytes();
    assert(b_app =~= seq![47u8, 97u8, 112u8, 112u8]);
    assert(b_app.skip(1) =~= seq![97u8, 112u8, 112u8]);
    assert(seg_of(b_app.skip(1)) == SegView::Lit(b_app.skip(1)));
    lemma_one_seg_pattern(b_app);

    let app_path = "/app_path";
    assert(app_path@ =~= seq!['/', 'a', 'p', 'p', '_', 'p', 'a', 't', 'h']);
    assert(is_ascii(app_path));
    is_ascii_spec_bytes(app_path);
    let b_ap = app_path.spec_bytes();
    assert(b_ap =~= seq![47u8, 97u8, 112u8, 112u8, 95u8, 112u8, 97u8, 116u8, 104u8]);
    assert(b_ap.skip(1) =~= seq![97u8, 112u8, 112u8, 95u8, 112u8, 97u8, 116u8, 104u8]);
    assert(seg_of(b_ap.skip(1)) == SegView::Lit(b_ap.skip(1)));
    lemma_one_seg_pattern(b_ap);

    let conf = "/conf";
    assert(conf@ =~= seq!['/', 'c', 'o', 'n', 'f']);
    assert(is_ascii(conf));
    is_ascii_spec_bytes(conf);
    let b_conf = conf.spec_bytes();
    assert(b_conf =~= seq![47u8, 99u8, 111u8, 110u8, 102u8]);
    assert(b_conf.skip(1) =~= seq![99u8, 111u8, 110u8, 102u8]);
    assert(seg_of(b_conf.skip(1)) == SegView::Lit(b_conf.skip(1)));
    lemma_one_seg_pattern(b_conf);

    let rs = demo_routes();
    assert(rs.len() == 5);
    assert(b_root.skip(1).len() == 0);
    assert(b_again.skip(1)[0] == 97u8 && b_hello.skip(1)[0] == 104u8);
    assert(b_again.skip(1) != b_hello.skip(1));
    assert forall|i: int, j: int| 0 <= i < j < rs.len() implies routes_compatible(
        rs[i],
        rs[j],
    ) by {
        if j == 3 || i == 3 {
            assert(rs[3].pattern.len() == 2);
        } else {
            assert(rs[i].pattern.len() == 1 && rs[j].pattern.len() == 1);
            assert(rs[i].pattern[0] is Lit && rs[j].pattern[0] is Lit);
            assert(rs[i].pattern[0] != rs[j].pattern[0]);
            assert(!crate::pattern::seg_overlap(rs[i].pattern[0], rs[j].pattern[0]));
        }
    }
}

/// The example table is conflict-free: no two of its routes leave a
/// request ambiguous.
pub proof fn lemma_demo_table_wf()
    ensures
        table_wf(demo_routes()),
{
    lemma_demo_table();
}

/// Route configuration kept in a function of its own: adds the
/// `/conf` route to an application under construction.
pub fn config(cfg: &mut App) -> (r: Result<(), StartupError>)
    ensures
        final(cfg)@.app_name == old(cfg)@.app_name,
        old(cfg)@.wf() && r is Ok ==> final(cfg)@.wf(),
        r is Ok ==> pattern_of_path("/conf".spec_bytes()) is Some && final(cfg)@.routes == old(
            cfg,
        )@.routes.push(
            new_route_view(
                Method::Get,
                pattern_of_path("/conf".spec_bytes()).unwrap(),
                (HandlerView::Fixed { status: 200, body: "config route".spec_bytes() }),
            ),
        ),
        match r {
            Result::Ok(_) => true,
            Result::Err(e) => final(cfg)@ == old(cfg)@ && match e {
                StartupError::BadPath => pattern_of_path("/conf".spec_bytes()) is None,
                StartupError::Conflict => pattern_of_path("/conf".spec_bytes()) is Some
                    && exists|i: int|
                    0 <= i < old(cfg)@.routes.len() && !routes_compatible(
                        old(cfg)@.routes[i],
                        new_route_view(
                            Method::Get,
                            pattern_of_path("/conf".spec_bytes()).unwrap(),
                            (HandlerView::Fixed {
                                status: 200,
                                body: "config route".spec_bytes(),
                            }),
                        ),
                    ),
            },
        },
{
    let path = "/conf".as_bytes_vec();
    let handler = Handler::Fixed { status: 200, body: "config route".as_bytes_vec() };
    match cfg.route(Method::Get, &path, handler) {
        Ok(_) => Ok(()),
        Err(e) => Err(e),
    }
}

/// Builds the example application: the shared state and the five
/// routes, one of them through a `/app` scope and one through
/// [`config`]. The five paths are distinct literals, so registration
/// always succeeds.
pub fn demo_app() -> (r: Result<App, StartupError>)
    ensures
        r is Ok,
        match r {
            Result::Ok(app) => {
                &&& app@.wf()
                &&& app@.app_name == "Actix_state".spec_bytes()
                &&& app@.routes == demo_routes()
            },
            Result::Err(_) => true,
        },
{
    proof {
        lemma_demo_table();
    }
    let ghost rs = demo_routes();
    let mut app = App::new();
    app.data(AppState::new("Actix_state".as_bytes_vec()));
    match app.route(Method::Get, &"/".as_bytes_vec(), index()) {
        Ok(_) => {
            proof {
                assert(app@.routes =~~= rs.take(1));
            }
        },
        Err(e) => {
            proof {
                assert(false);
            }
            return Err(e);
        },
    }
    match app.route(Method::Get, &"/again".as_bytes_vec(), index2()) {
        Ok(_) => {
            proof {
                assert(app@.routes =~~= rs.take(2));
            }
        },
        Err(e) => {
            proof {
                let w = choose|i: int|
                    0 <= i < rs.take(1).len() && !routes_compatible(rs.take(1)[i], rs[1]);
                assert(rs.take(1)[w] == rs[w]);
                assert(false);
            }
            return Err(e);
        },
    }
    match app.route(Method::Get, &"/hello".as_bytes_vec(), index3()) {
        Ok(_) => {
            proof {
                assert(app@.routes =~~= rs.take(3));
            }
        },
        Err(e) => {
            proof {
                let w = choose|i: int|
                    0 <= i < rs.take(2).len() && !routes_compatible(rs.take(2)[i], rs[2]);
                assert(rs.take(2)[w] == rs[w]);
                assert(false);
            }
            return Err(e);
        },
    }
    let mut scope = match Scope::new(&"/app".as_bytes_vec()) {
        Ok(s) => s,
        Err(e) => {
            proof {
                assert(false);
            }
            return Err(e);
        },
    };
    match scope.route(
        Method::Get,
        &"/app_path".as_bytes_vec(),
        Handler::Fixed { status: 200, body: "Scoped response".as_bytes_vec() },
    ) {
        Ok(_) => (),
        Err(e) => {
            proof {
                assert(false);
            }
            return Err(e);
        },
    }
    proof {
        assert(pattern_of_path("/app".spec_bytes()).unwrap() + pattern_of_path(
            "/app_path".spec_bytes(),
        ).unwrap() =~= pat_scoped());
        assert(prefixed_route(scope@.prefix, scope@.routes[0]) == rs[3]);
        assert(crate::router::expand_scope(scope@) =~~= seq![rs[3]]);
    }
    match app.service(scope) {
        Ok(_) => {
            proof {
                assert(app@.routes =~~= rs.take(4));
            }
        },
        Err(e) => {
            proof {
                assert(seq![rs[3]].skip(1) =~= Seq::<RouteView>::empty());
                assert(crate::router::add_all(rs.take(3), seq![rs[3]]) == Result::<
                    Seq<RouteView>,
                    StartupError,
                >::Err(e));
                if forall|i: int|
                    0 <= i < rs.take(3).len() ==> routes_compatible(rs.take(3)[i], rs[3]) {
                    assert(seq![rs[3]][0] == rs[3]);
                    assert(forall|i: int|
                        0 <= i < rs.take(3).len() ==> routes_compatible(
                            rs.take(3)[i],
                            seq![rs[3]][0],
                        ));
                    assert(crate::router::add_all(rs.take(3), seq![rs[3]])
                        == crate::router::add_all(rs.take(3).push(rs[3]), seq![rs[3]].skip(1)));
                    assert(seq![rs[3]].skip(1).len() == 0);
                    assert(crate::router::add_all(rs.take(3), seq![rs[3]]) is Ok);
                    assert(false);
                } else {
                    let w = choose|i: int|
                        0 <= i < rs.take(3).len() && !routes_compatible(rs.take(3)[i], rs[3]);
                    assert(rs.take(3)[w] == rs[w]);
                    assert(false);
                }
            }
            return Err(e);
        },
    }
    match config(&mut app) {
        Ok(_) => {
            proof {
                assert(app@.routes =~~= rs);
            }
        },
        Err(e) => {
            proof {
                let w = choose|i: int|
                    0 <= i < rs.take(4).len() && !routes_compatible(rs.take(4)[i], rs[4]);
                assert(rs.take(4)[w] == rs[w]);
                assert(false);
            }
            return Err(e);
        },
    }
    Ok(app)
}

} // verus!
