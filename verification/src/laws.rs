//! General properties of splitting, proved once and for all.
//!
//! Each proof function here states a guarantee of [`split_spec`], the
//! mathematical splitting that [`crate::StrSplit`] emits segment by
//! segment: splitting reconstructs the haystack, is finite, yields at
//! least one segment, and a haystack that ends with the delimiter ends in
//! an empty segment.

use vstd::prelude::*;

use crate::matcher::found_at;
use crate::matcher::lemma_first_found_from;
use crate::matcher::locate_spec;
use crate::split::lemma_split_at_least_one;
use crate::split::split_spec;

verus! {

/// The segments joined back together, with `d` reinserted between each
/// consecutive pair.
pub open spec fn join_with(segs: Seq<Seq<char>>, d: Seq<char>) -> Seq<char>
    decreases segs.len(),
{
    if segs.len() == 0 {
        Seq::empty()
    } else if segs.len() == 1 {
        segs[0]
    } else {
        segs[0] + d + join_with(segs.drop_first(), d)
    }
}

/// Reconstruction: concatenating the emitted segments with the delimiter
/// reinserted between each pair reproduces the haystack exactly.
pub proof fn lemma_reconstruction(h: Seq<char>, d: Seq<char>)
    ensures
        join_with(split_spec(h, d), d) == h,
    decreases h.len(),
{
    lemma_first_found_from(h, d, 0);
    match locate_spec(h, d) {
        Some(i) => {
            let dl = d.len() as int;
            let pre = h.subrange(0, i);
            let tail = h.subrange(i + dl, h.len() as int);
            let rest = split_spec(tail, d);
            lemma_reconstruction(tail, d);
            lemma_split_at_least_one(tail, d);
            assert(split_spec(h, d) == seq![pre] + rest);
            assert((seq![pre] + rest)[0] == pre);
            assert((seq![pre] + rest).drop_first() =~= rest);
            assert(join_with(split_spec(h, d), d) == pre + d + tail);
            assert(pre + d + tail =~= h) by {
                assert(h.subrange(i, i + dl) == d);
                assert forall|k: int| 0 <= k < h.len() implies (pre + d + tail)[k] == h[k] by {
                    if i <= k < i + dl {
                        assert(d[k - i] == h.subrange(i, i + dl)[k - i]);
                    }
                }
            }
        },
        None => {},
    }
}

/// Finiteness: splitting emits no more segments than the haystack has
/// characters, plus one; the splitter therefore exhausts after finitely
/// many steps.
pub proof fn lemma_split_finite(h: Seq<char>, d: Seq<char>)
    ensures
        split_spec(h, d).len() <= h.len() + 1,
    decreases h.len(),
{
    lemma_first_found_from(h, d, 0);
    match locate_spec(h, d) {
        Some(i) => {
            lemma_split_finite(h.subrange(i + d.len(), h.len() as int), d);
        },
        None => {},
    }
}

/// The delimiter has no nonempty proper border: no strict prefix of it is
/// also a suffix of it. Two occurrences of such a delimiter can never
/// overlap each other.
pub open spec fn overlap_free(d: Seq<char>) -> bool {
    forall|k: int|
        0 < k < d.len() ==> d.subrange(0, k) != d.subrange(d.len() - k, d.len() as int)
}

/// Trailing delimiter: when the haystack ends with an occurrence of a
/// delimiter that cannot overlap itself, the final emitted segment is the
/// empty text.
///
/// The overlap condition is needed: a delimiter with a border can consume
/// the trailing occurrence from inside an earlier, overlapping one, and
/// the final segment is then a leftover shorter than the delimiter.
pub proof fn lemma_trailing_delimiter(h: Seq<char>, d: Seq<char>)
    requires
        0 < d.len() <= h.len(),
        h.subrange(h.len() - d.len(), h.len() as int) == d,
        overlap_free(d),
    ensures
        split_spec(h, d).len() >= 2,
        split_spec(h, d).last() == Seq::<char>::empty(),
    decreases h.len(),
{
    let len = h.len() as int;
    let dl = d.len() as int;
    let p = len - dl;
    assert(found_at(h, d, p));
    lemma_first_found_from(h, d, 0);
    match locate_spec(h, d) {
        None => {
            assert(false);
        },
        Some(i) => {
            let pre = h.subrange(0, i);
            let tail = h.subrange(i + dl, len);
            let rest = split_spec(tail, d);
            assert(i <= p);
            lemma_split_at_least_one(tail, d);
            assert(split_spec(h, d) == seq![pre] + rest);
            assert(split_spec(h, d).last() == rest.last());
            if i == p {
                assert(tail =~= Seq::<char>::empty());
                lemma_first_found_from(tail, d, 0);
                assert(locate_spec(tail, d) is None);
                assert(rest == seq![tail]);
                assert(rest.last() =~= Seq::<char>::empty());
            } else {
                assert(i + dl <= p) by {
                    if i + dl > p {
                        let k = i + dl - p;
                        assert(d.subrange(0, k) =~= d.subrange(dl - k, dl)) by {
                            assert forall|t: int| 0 <= t < k implies d.subrange(0, k)[t]
                                == d.subrange(dl - k, dl)[t] by {
                                assert(d[t] == h.subrange(p, len)[t]);
                                assert(d[dl - k + t] == h.subrange(i, i + dl)[dl - k + t]);
                            }
                        }
                    }
                }
                let tl = tail.len() as int;
                assert(tail.subrange(tl - dl, tl) =~= d) by {
                    assert forall|t: int| 0 <= t < dl implies tail.subrange(tl - dl, tl)[t]
                        == d[t] by {
                        assert(tail[tl - dl + t] == h[p + t]);
                        assert(h.subrange(p, len)[t] == h[p + t]);
                    }
                }
                lemma_trailing_delimiter(tail, d);
            }
        },
    }
}

} // verus!
