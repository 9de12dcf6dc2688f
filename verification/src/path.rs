//! Splitting a raw request path into its segments.
//!
//! A well-formed path starts with `/`; the segments are the byte runs
//! between the separators. `/` has the single empty segment, `/a/b` has
//! the segments `a` and `b`. The same splitter, under other separators,
//! carves up query strings.

use vstd::prelude::*;

verus! {

/// The path separator, `/`.
pub const SLASH: u8 = 47;

/// The parts of a byte sequence, split on the separator `sep`.
pub open spec fn split_on(s: Seq<u8>, sep: u8) -> Seq<Seq<u8>>
    decreases s.len(),
{
    if s.len() == 0 {
        seq![Seq::<u8>::empty()]
    } else if s[0] == sep {
        seq![Seq::<u8>::empty()] + split_on(s.skip(1), sep)
    } else {
        let rest = split_on(s.skip(1), sep);
        seq![seq![s[0]] + rest[0]] + rest.skip(1)
    }
}

/// The segments of a byte sequence, split on `/`.
pub open spec fn split_segs(s: Seq<u8>) -> Seq<Seq<u8>> {
    split_on(s, SLASH)
}

/// A split never yields an empty part list.
pub proof fn lemma_split_nonempty(s: Seq<u8>, sep: u8)
    ensures
        split_on(s, sep).len() >= 1,
    decreases s.len(),
{
    if s.len() == 0 {
    } else {
        lemma_split_nonempty(s.skip(1), sep);
    }
}

/// A sequence free of the separator is one single part.
pub proof fn lemma_split_no_sep(s: Seq<u8>, sep: u8)
    requires
        forall|k: int| 0 <= k < s.len() ==> s[k] != sep,
    ensures
        split_on(s, sep) == seq![s],
    decreases s.len(),
{
    if s.len() == 0 {
        assert(split_on(s, sep) =~~= seq![s]);
    } else {
        let tail = s.skip(1);
        assert forall|k: int| 0 <= k < tail.len() implies tail[k] != sep by {
            assert(tail[k] == s[k + 1]);
        }
        lemma_split_no_sep(tail, sep);
        assert(seq![s[0]] + tail =~= s);
        assert(split_on(s, sep) =~~= seq![s]);
    }
}

/// The segments of a request path: `None` when the path does not start
/// with `/`, otherwise the split of everything after the leading `/`.
pub open spec fn parse_parts(path: Seq<u8>) -> Option<Seq<Seq<u8>>> {
    if path.len() == 0 || path[0] != SLASH {
        None
    } else {
        Some(split_segs(path.skip(1)))
    }
}

/// The views of a vector of byte segments.
pub open spec fn seg_views(parts: Seq<Vec<u8>>) -> Seq<Seq<u8>> {
    parts.map_values(|v: Vec<u8>| v@)
}

/// Splits `v`, from position `start` on, on the separator `sep`.
pub fn split_bytes(v: &Vec<u8>, start: usize, sep: u8) -> (r: Vec<Vec<u8>>)
    requires
        start <= v@.len(),
    ensures
        seg_views(r@) == split_on(v@.skip(start as int), sep),
        r@.len() >= 1,
{
    let mut parts: Vec<Vec<u8>> = Vec::new();
    parts.push(Vec::new());
    proof {
        assert(v@.skip(v@.len() as int) =~= Seq::<u8>::empty());
        assert(seg_views(parts@) =~~= split_on(v@.skip(v@.len() as int), sep));
    }
    let mut i: usize = v.len();
    while i > start
        invariant
            start <= i <= v@.len(),
            parts.len() >= 1,
            seg_views(parts@) == split_on(v@.skip(i as int), sep),
        decreases i,
    {
        let ghost tail = v@.skip(i as int);
        let ghost old_parts = parts@;
        let b = v[i - 1];
        if b == sep {
            parts.insert(0, Vec::new());
        } else {
            let mut first = parts.remove(0);
            first.insert(0, b);
            parts.insert(0, first);
        }
        i -= 1;
        proof {
            let stepped = v@.skip(i as int);
            assert(stepped =~= seq![b] + tail);
            assert(stepped.len() > 0 && stepped[0] == b);
            assert(stepped.skip(1) =~= tail);
            if b == sep {
                assert(split_on(stepped, sep) == seq![Seq::<u8>::empty()] + split_on(tail, sep));
                assert(seg_views(parts@) =~~= split_on(stepped, sep));
            } else {
                let rest = split_on(tail, sep);
                assert(split_on(stepped, sep) == seq![seq![b] + rest[0]] + rest.skip(1));
                lemma_split_nonempty(tail, sep);
                assert(rest[0] == seg_views(old_parts)[0]);
                assert(parts@[0]@ =~= seq![b] + old_parts[0]@);
                assert(parts@.skip(1) =~= old_parts.skip(1));
                assert(seg_views(parts@) =~~= split_on(stepped, sep));
            }
        }
    }
    parts
}

/// Splits a raw path into segments; `None` on a path that does not
/// start with `/`.
pub fn split_path(path: &Vec<u8>) -> (r: Option<Vec<Vec<u8>>>)
    ensures
        match r {
            Some(parts) => parse_parts(path@) == Some(seg_views(parts@)),
            None => parse_parts(path@) is None,
        },
{
    if path.len() == 0 {
        return None;
    }
    if path[0] != SLASH {
        return None;
    }
    Some(split_bytes(path, 1, SLASH))
}

} // verus!
