//! Decoding a query string into key/value bindings.
//!
//! A query string is `&`-separated pairs; within one pair, everything
//! before the first `=` is the key and everything after it is the
//! value. A pair without `=` has itself as key and an empty value.

use vstd::prelude::*;
use crate::path::{seg_views, split_on, split_bytes};
use crate::pattern::{pair_views, sub_vec};

verus! {

/// The pair separator, `&`.
pub const AMP: u8 = 38;

/// The key/value separator, `=`.
pub const EQ: u8 = 61;

/// The key of one query pair: the bytes before the first `=`.
pub open spec fn key_of(p: Seq<u8>) -> Seq<u8>
    decreases p.len(),
{
    if p.len() == 0 {
        Seq::empty()
    } else if p[0] == EQ {
        Seq::empty()
    } else {
        seq![p[0]] + key_of(p.skip(1))
    }
}

/// The value of one query pair: the bytes after the first `=`, empty
/// when there is none.
pub open spec fn val_of(p: Seq<u8>) -> Seq<u8>
    decreases p.len(),
{
    if p.len() == 0 {
        Seq::empty()
    } else if p[0] == EQ {
        p.skip(1)
    } else {
        val_of(p.skip(1))
    }
}

/// The bindings a query string decodes to, pair by pair, in order.
pub open spec fn query_binds(q: Seq<u8>) -> Seq<(Seq<u8>, Seq<u8>)> {
    split_on(q, AMP).map_values(|p: Seq<u8>| (key_of(p), val_of(p)))
}

/// A pair whose first `i` bytes hold no `=` and whose byte `i` is `=`
/// splits exactly there.
proof fn lemma_pair_split_at(p: Seq<u8>, i: int)
    requires
        0 <= i < p.len(),
        forall|k: int| 0 <= k < i ==> p[k] != EQ,
        p[i] == EQ,
    ensures
        key_of(p) == p.take(i),
        val_of(p) == p.skip(i + 1),
    decreases i,
{
    if i == 0 {
        assert(key_of(p) =~= p.take(0));
    } else {
        let tail = p.skip(1);
        assert forall|k: int| 0 <= k < i - 1 implies tail[k] != EQ by {
            assert(tail[k] == p[k + 1]);
        }
        assert(tail[i - 1] == p[i]);
        lemma_pair_split_at(tail, i - 1);
        assert(key_of(p) == seq![p[0]] + key_of(tail));
        assert(seq![p[0]] + tail.take(i - 1) =~= p.take(i));
        assert(tail.skip(i) =~= p.skip(i + 1));
    }
}

/// A pair without `=` is all key and no value.
proof fn lemma_pair_no_eq(p: Seq<u8>)
    requires
        forall|k: int| 0 <= k < p.len() ==> p[k] != EQ,
    ensures
        key_of(p) == p,
        val_of(p) == Seq::<u8>::empty(),
    decreases p.len(),
{
    if p.len() == 0 {
        assert(key_of(p) =~= p);
    } else {
        let tail = p.skip(1);
        assert forall|k: int| 0 <= k < tail.len() implies tail[k] != EQ by {
            assert(tail[k] == p[k + 1]);
        }
        lemma_pair_no_eq(tail);
        assert(seq![p[0]] + tail =~= p);
    }
}

/// Splits one query pair at its first `=`.
fn split_pair(p: &Vec<u8>) -> (r: (Vec<u8>, Vec<u8>))
    ensures
        r.0@ == key_of(p@),
        r.1@ == val_of(p@),
{
    let mut i: usize = 0;
    while i < p.len()
        invariant
            i <= p@.len(),
            forall|k: int| 0 <= k < i ==> p@[k] != EQ,
        decreases p.len() - i,
    {
        if p[i] == EQ {
            let key = sub_vec(p, 0, i);
            let value = sub_vec(p, i + 1, p.len());
            proof {
                lemma_pair_split_at(p@, i as int);
                assert(key@ =~= p@.take(i as int));
                assert(value@ =~= p@.skip(i + 1));
            }
            return (key, value);
        }
        i += 1;
    }
    let key = sub_vec(p, 0, p.len());
    proof {
        lemma_pair_no_eq(p@);
        assert(key@ =~= p@);
    }
    (key, Vec::new())
}

/// Decodes a query string into its key/value bindings.
pub fn parse_query(q: &Vec<u8>) -> (r: Vec<(Vec<u8>, Vec<u8>)>)
    ensures
        pair_views(r@) == query_binds(q@),
{
    let parts = split_bytes(q, 0, AMP);
    proof {
        assert(q@.skip(0) =~= q@);
    }
    let mut out: Vec<(Vec<u8>, Vec<u8>)> = Vec::new();
    let mut i: usize = 0;
    while i < parts.len()
        invariant
            i <= parts@.len(),
            seg_views(parts@) == split_on(q@, AMP),
            out@.len() == i,
            forall|k: int|
                0 <= k < i ==> pair_views(out@)[k] == (
                    key_of(seg_views(parts@)[k]),
                    val_of(seg_views(parts@)[k]),
                ),
        decreases parts.len() - i,
    {
        let ghost old_out = out@;
        let pair = split_pair(&parts[i]);
        let ghost pv = (pair.0@, pair.1@);
        out.push(pair);
        proof {
            assert(pair_views(out@)[i as int] == pv);
            assert(seg_views(parts@)[i as int] == parts@[i as int]@);
            assert forall|k: int| 0 <= k < i + 1 implies pair_views(out@)[k] == (
                key_of(seg_views(parts@)[k]),
                val_of(seg_views(parts@)[k]),
            ) by {
                if k < i {
                    assert(pair_views(out@)[k] == pair_views(old_out)[k]);
                }
            }
        }
        i += 1;
    }
    proof {
        assert(pair_views(out@) =~~= query_binds(q@));
    }
    out
}

} // verus!
