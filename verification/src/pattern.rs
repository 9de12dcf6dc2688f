//! Route patterns: ordered literal and parameter segments, their matching
//! relation against a split request path, and the parameter bindings a
//! match produces.
//!
//! A parameter segment is written `{name}` in a route path; it matches any
//! one path segment and binds it under `name`.

use vstd::prelude::*;
use crate::bytes::bytes_eq;
use crate::path::{SLASH, seg_views, parse_parts};

verus! {

/// Opening brace of a parameter segment, `{`.
pub const LBRACE: u8 = 123;

/// Closing brace of a parameter segment, `}`.
pub const RBRACE: u8 = 125;

/// One pattern segment: an exact literal, or a named parameter.
pub enum Segment {
    Lit(Vec<u8>),
    Param(Vec<u8>),
}

/// Ghost view of a pattern segment.
pub enum SegView {
    Lit(Seq<u8>),
    Param(Seq<u8>),
}

impl View for Segment {
    type V = SegView;

    open spec fn view(&self) -> SegView {
        match self {
            Segment::Lit(v) => SegView::Lit(v@),
            Segment::Param(v) => SegView::Param(v@),
        }
    }
}

/// A route pattern: the segments a request path must present, in order.
pub struct Pattern {
    pub segs: Vec<Segment>,
}

impl View for Pattern {
    type V = Seq<SegView>;

    open spec fn view(&self) -> Seq<SegView> {
        self.segs@.map_values(|s: Segment| s@)
    }
}

/// Whether one pattern segment accepts one path segment.
pub open spec fn seg_matches(s: SegView, part: Seq<u8>) -> bool {
    match s {
        SegView::Lit(l) => l == part,
        SegView::Param(_) => true,
    }
}

/// Whether a pattern accepts a split path: same length, and every
/// segment accepts the part in its position.
pub open spec fn pat_matches(pat: Seq<SegView>, parts: Seq<Seq<u8>>) -> bool {
    &&& pat.len() == parts.len()
    &&& forall|i: int| 0 <= i < pat.len() ==> seg_matches(pat[i], parts[i])
}

/// How many parameter segments a pattern has; the tie-break between two
/// patterns that accept the same path.
pub open spec fn param_count(pat: Seq<SegView>) -> nat
    decreases pat.len(),
{
    if pat.len() == 0 {
        0
    } else {
        param_count(pat.drop_last()) + (if pat.last() is Param {
            1nat
        } else {
            0nat
        })
    }
}

/// Whether two pattern segments can accept a common path segment.
pub open spec fn seg_overlap(a: SegView, b: SegView) -> bool {
    match a {
        SegView::Lit(x) => match b {
            SegView::Lit(y) => x == y,
            SegView::Param(_) => true,
        },
        SegView::Param(_) => true,
    }
}

/// Whether two patterns can accept a common path.
pub open spec fn pat_overlap(p: Seq<SegView>, q: Seq<SegView>) -> bool {
    &&& p.len() == q.len()
    &&& forall|i: int| 0 <= i < p.len() ==> seg_overlap(p[i], q[i])
}

/// Two patterns that accept the same path overlap.
pub proof fn lemma_match_overlap(p: Seq<SegView>, q: Seq<SegView>, parts: Seq<Seq<u8>>)
    requires
        pat_matches(p, parts),
        pat_matches(q, parts),
    ensures
        pat_overlap(p, q),
{
    assert forall|i: int| 0 <= i < p.len() implies seg_overlap(p[i], q[i]) by {
        assert(seg_matches(p[i], parts[i]));
        assert(seg_matches(q[i], parts[i]));
    }
}

/// The parameter bindings a match produces: for each parameter segment,
/// in order, its name paired with the path segment it bound.
pub open spec fn bindings(pat: Seq<SegView>, parts: Seq<Seq<u8>>) -> Seq<(Seq<u8>, Seq<u8>)>
    decreases pat.len(),
{
    if pat.len() == 0 || parts.len() == 0 {
        Seq::empty()
    } else {
        let rest = bindings(pat.drop_last(), parts.drop_last());
        match pat.last() {
            SegView::Param(n) => rest.push((n, parts.last())),
            SegView::Lit(_) => rest,
        }
    }
}

/// The segment a route path part denotes: `{name}` is a parameter named
/// `name`, anything else is a literal.
pub open spec fn seg_of(p: Seq<u8>) -> SegView {
    if p.len() >= 2 && p[0] == LBRACE && p[p.len() - 1] == RBRACE {
        SegView::Param(p.subrange(1, p.len() - 1))
    } else {
        SegView::Lit(p)
    }
}

/// The pattern a split route path denotes.
pub open spec fn pattern_of(parts: Seq<Seq<u8>>) -> Seq<SegView> {
    parts.map_values(|p: Seq<u8>| seg_of(p))
}

/// The pattern a raw route path denotes, or `None` when the path does
/// not start with `/`.
pub open spec fn pattern_of_path(path: Seq<u8>) -> Option<Seq<SegView>> {
    match parse_parts(path) {
        Option::None => Option::None,
        Option::Some(parts) => Option::Some(pattern_of(parts)),
    }
}

/// A route path with one leading `/`, no further separator and no
/// parameter braces denotes the single-literal pattern of its tail.
pub proof fn lemma_one_seg_pattern(b: Seq<u8>)
    requires
        b.len() >= 1,
        b[0] == SLASH,
        forall|k: int| 1 <= k < b.len() ==> b[k] != SLASH,
        seg_of(b.skip(1)) == SegView::Lit(b.skip(1)),
    ensures
        pattern_of_path(b) == Some(seq![SegView::Lit(b.skip(1))]),
{
    let tail = b.skip(1);
    assert forall|k: int| 0 <= k < tail.len() implies tail[k] != SLASH by {
        assert(tail[k] == b[k + 1]);
    }
    crate::path::lemma_split_no_sep(tail, SLASH);
    assert(parse_parts(b) == Some(seq![tail]));
    assert(pattern_of(seq![tail]) =~~= seq![SegView::Lit(tail)]);
}

/// Copies the byte range `[from, to)` of a vector.
pub fn sub_vec(v: &Vec<u8>, from: usize, to: usize) -> (r: Vec<u8>)
    requires
        from <= to <= v@.len(),
    ensures
        r@ == v@.subrange(from as int, to as int),
{
    let mut r: Vec<u8> = Vec::new();
    let mut i: usize = from;
    while i < to
        invariant
            from <= i <= to <= v@.len(),
            r@ == v@.subrange(from as int, i as int),
        decreases to - i,
    {
        r.push(v[i]);
        proof {
            assert(r@ =~= v@.subrange(from as int, i + 1));
        }
        i += 1;
    }
    r
}

/// Turns one split route-path part into its segment.
pub fn parse_seg(part: &Vec<u8>) -> (r: Segment)
    ensures
        r@ == seg_of(part@),
{
    if part.len() >= 2 && part[0] == LBRACE && part[part.len() - 1] == RBRACE {
        let name = sub_vec(part, 1, part.len() - 1);
        proof {
            assert(name@ =~= part@.subrange(1, part@.len() - 1));
        }
        Segment::Param(name)
    } else {
        let lit = sub_vec(part, 0, part.len());
        proof {
            assert(lit@ =~= part@);
        }
        Segment::Lit(lit)
    }
}

/// Turns a vector of split route-path parts into a pattern.
pub fn parse_segs(parts: &Vec<Vec<u8>>) -> (r: Pattern)
    ensures
        r@ == pattern_of(seg_views(parts@)),
{
    let mut segs: Vec<Segment> = Vec::new();
    let mut i: usize = 0;
    while i < parts.len()
        invariant
            i <= parts.len(),
            segs@.len() == i,
            forall|k: int| 0 <= k < i ==> segs@[k]@ == seg_of(parts@[k]@),
        decreases parts.len() - i,
    {
        segs.push(parse_seg(&parts[i]));
        i += 1;
    }
    let r = Pattern { segs };
    proof {
        assert(r@ =~~= pattern_of(seg_views(parts@)));
    }
    r
}

/// Whether one segment accepts one path part.
pub fn seg_matches_exec(seg: &Segment, part: &Vec<u8>) -> (r: bool)
    ensures
        r == seg_matches(seg@, part@),
{
    match seg {
        Segment::Lit(l) => bytes_eq(l, part),
        Segment::Param(_) => true,
    }
}

/// Whether a pattern accepts a split path.
pub fn pat_matches_exec(pat: &Pattern, parts: &Vec<Vec<u8>>) -> (r: bool)
    ensures
        r == pat_matches(pat@, seg_views(parts@)),
{
    if pat.segs.len() != parts.len() {
        return false;
    }
    let mut i: usize = 0;
    while i < parts.len()
        invariant
            i <= parts.len(),
            pat.segs@.len() == parts@.len(),
            forall|k: int| 0 <= k < i ==> seg_matches(pat@[k], seg_views(parts@)[k]),
        decreases parts.len() - i,
    {
        if !seg_matches_exec(&pat.segs[i], &parts[i]) {
            proof {
                assert(!seg_matches(pat@[i as int], seg_views(parts@)[i as int]));
            }
            return false;
        }
        proof {
            assert(seg_matches(pat@[i as int], seg_views(parts@)[i as int]));
        }
        i += 1;
    }
    true
}

/// Whether two patterns can accept a common path.
pub fn pat_overlap_exec(p: &Pattern, q: &Pattern) -> (r: bool)
    ensures
        r == pat_overlap(p@, q@),
{
    if p.segs.len() != q.segs.len() {
        return false;
    }
    let mut i: usize = 0;
    while i < p.segs.len()
        invariant
            i <= p.segs@.len(),
            p.segs@.len() == q.segs@.len(),
            forall|k: int| 0 <= k < i ==> seg_overlap(p@[k], q@[k]),
        decreases p.segs.len() - i,
    {
        let a = &p.segs[i];
        let b = &q.segs[i];
        let ok = match a {
            Segment::Lit(x) => match b {
                Segment::Lit(y) => bytes_eq(x, y),
                Segment::Param(_) => true,
            },
            Segment::Param(_) => true,
        };
        proof {
            assert(p@[i as int] == p.segs@[i as int]@);
            assert(q@[i as int] == q.segs@[i as int]@);
        }
        if !ok {
            proof {
                assert(!seg_overlap(p@[i as int], q@[i as int]));
            }
            return false;
        }
        i += 1;
    }
    true
}

/// Counts the parameter segments of a pattern.
pub fn param_count_exec(pat: &Pattern) -> (r: usize)
    ensures
        r == param_count(pat@),
{
    let mut count: usize = 0;
    let mut i: usize = 0;
    while i < pat.segs.len()
        invariant
            i <= pat.segs@.len(),
            count <= i,
            count == param_count(pat@.take(i as int)),
        decreases pat.segs.len() - i,
    {
        proof {
            assert(pat@.take(i + 1).drop_last() =~= pat@.take(i as int));
            assert(pat@.take(i + 1).last() == pat@[i as int]);
        }
        let is_param = match &pat.segs[i] {
            Segment::Param(_) => true,
            Segment::Lit(_) => false,
        };
        if is_param {
            count += 1;
        }
        i += 1;
    }
    proof {
        assert(pat@.take(pat@.len() as int) =~= pat@);
    }
    count
}

/// Collects the parameter bindings of a match.
pub fn compute_bindings(pat: &Pattern, parts: &Vec<Vec<u8>>) -> (r: Vec<(Vec<u8>, Vec<u8>)>)
    requires
        pat@.len() == seg_views(parts@).len(),
    ensures
        pair_views(r@) == bindings(pat@, seg_views(parts@)),
{
    let mut acc: Vec<(Vec<u8>, Vec<u8>)> = Vec::new();
    let mut i: usize = 0;
    proof {
        assert(pair_views(acc@) =~~= bindings(pat@.take(0), seg_views(parts@).take(0)));
    }
    while i < parts.len()
        invariant
            i <= parts.len(),
            pat@.len() == seg_views(parts@).len(),
            pair_views(acc@) == bindings(pat@.take(i as int), seg_views(parts@).take(i as int)),
        decreases parts.len() - i,
    {
        let ghost pv = seg_views(parts@);
        proof {
            assert(pat@.take(i + 1).drop_last() =~= pat@.take(i as int));
            assert(pv.take(i + 1).drop_last() =~= pv.take(i as int));
            assert(pat@.take(i + 1).last() == pat@[i as int]);
            assert(pv.take(i + 1).last() == pv[i as int]);
        }
        match &pat.segs[i] {
            Segment::Param(n) => {
                let name = sub_vec(n, 0, n.len());
                let value = sub_vec(&parts[i], 0, parts[i].len());
                proof {
                    assert(name@ =~= n@);
                    assert(value@ =~= parts@[i as int]@);
                }
                acc.push((name, value));
                proof {
                    assert(pair_views(acc@) =~~= bindings(
                        pat@.take(i + 1),
                        pv.take(i + 1),
                    ));
                }
            },
            Segment::Lit(_) => {
                proof {
                    assert(pair_views(acc@) =~~= bindings(
                        pat@.take(i + 1),
                        pv.take(i + 1),
                    ));
                }
            },
        }
        i += 1;
    }
    proof {
        assert(pat@.take(pat@.len() as int) =~= pat@);
        assert(seg_views(parts@).take(seg_views(parts@).len() as int) =~= seg_views(parts@));
    }
    acc
}

/// The views of a vector of binding pairs.
pub open spec fn pair_views(ps: Seq<(Vec<u8>, Vec<u8>)>) -> Seq<(Seq<u8>, Seq<u8>)> {
    ps.map_values(|p: (Vec<u8>, Vec<u8>)| (p.0@, p.1@))
}

/// Copies one segment.
pub fn clone_seg(s: &Segment) -> (r: Segment)
    ensures
        r@ == s@,
{
    match s {
        Segment::Lit(v) => {
            let c = sub_vec(v, 0, v.len());
            proof {
                assert(c@ =~= v@);
            }
            Segment::Lit(c)
        },
        Segment::Param(v) => {
            let c = sub_vec(v, 0, v.len());
            proof {
                assert(c@ =~= v@);
            }
            Segment::Param(c)
        },
    }
}

/// The concatenation of two patterns: the scope prefix followed by the
/// route's own segments.
pub fn concat_pattern(a: &Pattern, b: &Pattern) -> (r: Pattern)
    ensures
        r@ == a@ + b@,
{
    let mut segs: Vec<Segment> = Vec::new();
    let mut i: usize = 0;
    while i < a.segs.len()
        invariant
            i <= a.segs@.len(),
            segs@.len() == i,
            forall|k: int| 0 <= k < i ==> segs@[k]@ == a@[k],
        decreases a.segs.len() - i,
    {
        segs.push(clone_seg(&a.segs[i]));
        i += 1;
    }
    let mut j: usize = 0;
    while j < b.segs.len()
        invariant
            j <= b.segs@.len(),
            segs@.len() == a.segs@.len() + j,
            forall|k: int| 0 <= k < a.segs@.len() ==> segs@[k]@ == a@[k],
            forall|k: int| 0 <= k < j ==> segs@[a.segs@.len() + k]@ == b@[k],
        decreases b.segs.len() - j,
    {
        segs.push(clone_seg(&b.segs[j]));
        j += 1;
    }
    let r = Pattern { segs };
    proof {
        assert(r@ =~~= a@ + b@);
    }
    r
}

} // verus!
