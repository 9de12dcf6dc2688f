//! The closed set of handler shapes, the extractor that builds their
//! inputs, and the resolver that turns every handler outcome into one
//! wire response.

use vstd::prelude::*;
use crate::bytes::bytes_concat;
use crate::http::{Request, ReqView, Response, RespView, bad_request, bad_request_view};
use crate::pattern::{pair_views, sub_vec};
use crate::query::{parse_query, query_binds};

verus! {

/// A route handler. Handlers form a closed set: a canned response, a
/// greeting that reads the shared application state, a two-way branch
/// over the request body, and an echo of one bound path parameter.
pub enum Handler {
    /// Responds with a fixed status and body.
    Fixed { status: u16, body: Vec<u8> },
    /// Responds 200 with the given prefix followed by the shared
    /// application name.
    Greet { prefix: Vec<u8> },
    /// Responds 400 with `bad` on an empty request body, otherwise 200
    /// with `good`: the two-way branch over response kinds.
    BranchOnBody { bad: Vec<u8>, good: Vec<u8> },
    /// Responds 200 with the value bound to the named path parameter;
    /// extraction fails when the pattern bound no such parameter.
    ParamEcho { name: Vec<u8> },
    /// Responds 200 with the value of the named query-string key;
    /// extraction fails when the query carries no such key.
    QueryEcho { key: Vec<u8> },
}

/// Ghost view of a handler.
pub enum HandlerView {
    Fixed { status: u16, body: Seq<u8> },
    Greet { prefix: Seq<u8> },
    BranchOnBody { bad: Seq<u8>, good: Seq<u8> },
    ParamEcho { name: Seq<u8> },
    QueryEcho { key: Seq<u8> },
}

impl View for Handler {
    type V = HandlerView;

    open spec fn view(&self) -> HandlerView {
        match self {
            Handler::Fixed { status, body } => HandlerView::Fixed { status: *status, body: body@ },
            Handler::Greet { prefix } => HandlerView::Greet { prefix: prefix@ },
            Handler::BranchOnBody { bad, good } => HandlerView::BranchOnBody {
                bad: bad@,
                good: good@,
            },
            Handler::ParamEcho { name } => HandlerView::ParamEcho { name: name@ },
            Handler::QueryEcho { key } => HandlerView::QueryEcho { key: key@ },
        }
    }
}

/// The error a handler may raise; the resolver maps it to a 500-class
/// response.
pub struct HandlerError {
    pub msg: Vec<u8>,
}

impl View for HandlerError {
    type V = Seq<u8>;

    open spec fn view(&self) -> Seq<u8> {
        self.msg@
    }
}

/// A two-way handler outcome: either a full response, or a plain text
/// that may itself have failed.
pub enum EitherResp {
    A(Response),
    B(Result<Vec<u8>, HandlerError>),
}

/// Ghost view of a two-way outcome.
pub enum EitherView {
    A(RespView),
    B(Result<Seq<u8>, Seq<u8>>),
}

impl View for EitherResp {
    type V = EitherView;

    open spec fn view(&self) -> EitherView {
        match self {
            EitherResp::A(r) => EitherView::A(r@),
            EitherResp::B(Result::Ok(t)) => EitherView::B(Result::Ok(t@)),
            EitherResp::B(Result::Err(e)) => EitherView::B(Result::Err(e@)),
        }
    }
}

/// What a handler hands back before resolution: a full response, plain
/// text, or a two-way outcome.
pub enum HandlerOutput {
    Full(Response),
    Text(Vec<u8>),
    Branch(EitherResp),
}

/// Ghost view of a handler outcome.
pub enum OutputView {
    Full(RespView),
    Text(Seq<u8>),
    Branch(EitherView),
}

impl View for HandlerOutput {
    type V = OutputView;

    open spec fn view(&self) -> OutputView {
        match self {
            HandlerOutput::Full(r) => OutputView::Full(r@),
            HandlerOutput::Text(t) => OutputView::Text(t@),
            HandlerOutput::Branch(e) => OutputView::Branch(e@),
        }
    }
}

/// Extraction failure: a required handler input could not be built from
/// the request.
pub struct ExtractError {}

/// The first value bound under `name`, if any.
pub open spec fn lookup_spec(binds: Seq<(Seq<u8>, Seq<u8>)>, name: Seq<u8>) -> Option<Seq<u8>>
    decreases binds.len(),
{
    if binds.len() == 0 {
        Option::None
    } else if binds[0].0 == name {
        Option::Some(binds[0].1)
    } else {
        lookup_spec(binds.skip(1), name)
    }
}

proof fn lemma_lookup_skip(binds: Seq<(Seq<u8>, Seq<u8>)>, name: Seq<u8>, i: int)
    requires
        0 <= i <= binds.len(),
        forall|k: int| 0 <= k < i ==> binds[k].0 != name,
    ensures
        lookup_spec(binds, name) == lookup_spec(binds.skip(i), name),
    decreases i,
{
    if i == 0 {
        assert(binds.skip(0) =~= binds);
    } else {
        assert(binds[0].0 != name);
        let tail = binds.skip(1);
        assert forall|k: int| 0 <= k < i - 1 implies tail[k].0 != name by {
            assert(tail[k] == binds[k + 1]);
        }
        lemma_lookup_skip(tail, name, i - 1);
        assert(tail.skip(i - 1) =~= binds.skip(i));
    }
}

/// Finds the first binding under `name`.
pub fn lookup_param(binds: &Vec<(Vec<u8>, Vec<u8>)>, name: &Vec<u8>) -> (r: Option<Vec<u8>>)
    ensures
        match r {
            Option::Some(v) => lookup_spec(pair_views(binds@), name@) == Option::Some(v@),
            Option::None => lookup_spec(pair_views(binds@), name@) is None,
        },
{
    let ghost bv = pair_views(binds@);
    let mut i: usize = 0;
    while i < binds.len()
        invariant
            i <= binds.len(),
            bv == pair_views(binds@),
            forall|k: int| 0 <= k < i ==> bv[k].0 != name@,
        decreases binds.len() - i,
    {
        if crate::bytes::bytes_eq(&binds[i].0, name) {
            let v = sub_vec(&binds[i].1, 0, binds[i].1.len());
            proof {
                assert(v@ =~= bv[i as int].1);
                lemma_lookup_skip(bv, name@, i as int);
                assert(bv.skip(i as int)[0] == bv[i as int]);
                assert(bv.skip(i as int).len() > 0);
            }
            return Some(v);
        }
        proof {
            assert(bv[i as int].0 != name@);
        }
        i += 1;
    }
    proof {
        lemma_lookup_skip(bv, name@, binds@.len() as int);
        assert(bv.skip(binds@.len() as int).len() == 0);
    }
    None
}

/// What invoking a handler yields: its outcome, or an extraction
/// failure when a required input is missing.
pub open spec fn invoke_spec(
    h: HandlerView,
    app_name: Seq<u8>,
    req: ReqView,
    binds: Seq<(Seq<u8>, Seq<u8>)>,
) -> Result<OutputView, ()> {
    match h {
        HandlerView::Fixed { status, body } => Result::Ok(
            OutputView::Full(RespView { status, body }),
        ),
        HandlerView::Greet { prefix } => Result::Ok(
            OutputView::Full(RespView { status: 200, body: prefix + app_name }),
        ),
        HandlerView::BranchOnBody { bad, good } => Result::Ok(
            OutputView::Branch(
                if req.body.len() == 0 {
                    EitherView::A(RespView { status: 400, body: bad })
                } else {
                    EitherView::B(Result::Ok(good))
                },
            ),
        ),
        HandlerView::ParamEcho { name } => match lookup_spec(binds, name) {
            Option::Some(v) => Result::Ok(OutputView::Text(v)),
            Option::None => Result::Err(()),
        },
        HandlerView::QueryEcho { key } => match lookup_spec(query_binds(req.query), key) {
            Option::Some(v) => Result::Ok(OutputView::Text(v)),
            Option::None => Result::Err(()),
        },
    }
}

/// Runs the extractor step and the handler itself: builds the handler's
/// inputs from the request, the shared state and the path bindings, and
/// produces the handler's outcome.
pub fn invoke(
    h: &Handler,
    app_name: &Vec<u8>,
    req: &Request,
    binds: &Vec<(Vec<u8>, Vec<u8>)>,
) -> (r: Result<HandlerOutput, ExtractError>)
    ensures
        match r {
            Result::Ok(out) => invoke_spec(h@, app_name@, req@, pair_views(binds@))
                == Result::<OutputView, ()>::Ok(out@),
            Result::Err(_) => invoke_spec(h@, app_name@, req@, pair_views(binds@))
                == Result::<OutputView, ()>::Err(()),
        },
{
    match h {
        Handler::Fixed { status, body } => {
            let b = sub_vec(body, 0, body.len());
            proof {
                assert(b@ =~= body@);
            }
            Ok(HandlerOutput::Full(Response { status: *status, body: b }))
        },
        Handler::Greet { prefix } => {
            let b = bytes_concat(prefix, app_name);
            Ok(HandlerOutput::Full(Response { status: 200, body: b }))
        },
        Handler::BranchOnBody { bad, good } => {
            if req.body.len() == 0 {
                let b = sub_vec(bad, 0, bad.len());
                proof {
                    assert(b@ =~= bad@);
                }
                Ok(HandlerOutput::Branch(EitherResp::A(Response { status: 400, body: b })))
            } else {
                let g = sub_vec(good, 0, good.len());
                proof {
                    assert(g@ =~= good@);
                }
                Ok(HandlerOutput::Branch(EitherResp::B(Ok(g))))
            }
        },
        Handler::ParamEcho { name } => match lookup_param(binds, name) {
            Some(v) => Ok(HandlerOutput::Text(v)),
            None => Err(ExtractError {}),
        },
        Handler::QueryEcho { key } => {
            let qbinds = parse_query(&req.query);
            match lookup_param(&qbinds, key) {
                Some(v) => Ok(HandlerOutput::Text(v)),
                None => Err(ExtractError {}),
            }
        },
    }
}

/// The single response a handler outcome resolves to: a full response
/// stands as it is, text becomes a 200, a failed text becomes a 500.
pub open spec fn resolve_spec(o: OutputView) -> RespView {
    match o {
        OutputView::Full(r) => r,
        OutputView::Text(t) => RespView { status: 200, body: t },
        OutputView::Branch(EitherView::A(r)) => r,
        OutputView::Branch(EitherView::B(Result::Ok(t))) => RespView { status: 200, body: t },
        OutputView::Branch(EitherView::B(Result::Err(msg))) => RespView {
            status: 500,
            body: msg,
        },
    }
}

/// Resolves a handler outcome into the one response that is sent.
/// Resolution is total over the closed set of outcome shapes.
pub fn resolve(out: HandlerOutput) -> (r: Response)
    ensures
        r@ == resolve_spec(out@),
{
    match out {
        HandlerOutput::Full(r) => r,
        HandlerOutput::Text(t) => Response { status: 200, body: t },
        HandlerOutput::Branch(EitherResp::A(r)) => r,
        HandlerOutput::Branch(EitherResp::B(Ok(t))) => Response { status: 200, body: t },
        HandlerOutput::Branch(EitherResp::B(Err(e))) => Response { status: 500, body: e.msg },
    }
}

/// The response a matched route produces: the handler's resolved
/// outcome, or a 400 when extraction fails.
pub open spec fn run_route_spec(
    h: HandlerView,
    app_name: Seq<u8>,
    req: ReqView,
    binds: Seq<(Seq<u8>, Seq<u8>)>,
) -> RespView {
    match invoke_spec(h, app_name, req, binds) {
        Result::Ok(out) => resolve_spec(out),
        Result::Err(_) => bad_request_view(),
    }
}

/// Extracts, invokes and resolves one matched route.
pub fn run_route(
    h: &Handler,
    app_name: &Vec<u8>,
    req: &Request,
    binds: &Vec<(Vec<u8>, Vec<u8>)>,
) -> (r: Response)
    ensures
        r@ == run_route_spec(h@, app_name@, req@, pair_views(binds@)),
{
    match invoke(h, app_name, req, binds) {
        Ok(out) => resolve(out),
        Err(_) => bad_request(),
    }
}

} // verus!
