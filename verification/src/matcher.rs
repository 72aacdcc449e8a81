//! Locating the first occurrence of a delimiter inside a text view.
//!
//! The haystack and the delimiter are modelled as sequences of characters.
//! [`found_at`] says that the delimiter occupies a given position of the
//! haystack; [`locate_spec`] is the leftmost such position, if any. The
//! [`Delimiter`] trait promises exactly that of its executable
//! `locate_itself` method, and is implemented for a literal `&str` pattern
//! and for a single `char`.

use vstd::prelude::*;
use vstd::string::StrSliceExecFns;

verus! {

/// The delimiter `d` occurs in `h` at character position `i`.
///
/// An empty delimiter is never considered to occur anywhere: repeatedly
/// matching a zero-width pattern would make no progress, so the splitter
/// treats an empty pattern as matching nothing at all.
pub open spec fn found_at(h: Seq<char>, d: Seq<char>, i: int) -> bool {
    &&& d.len() > 0
    &&& 0 <= i
    &&& i + d.len() <= h.len()
    &&& h.subrange(i, i + d.len()) == d
}

/// The least position `>= from` at which `d` occurs in `h`, if any.
pub open spec fn first_found_from(h: Seq<char>, d: Seq<char>, from: int) -> Option<int>
    decreases h.len() - from,
{
    if from < 0 || from > h.len() {
        None
    } else if found_at(h, d, from) {
        Some(from)
    } else if from == h.len() {
        None
    } else {
        first_found_from(h, d, from + 1)
    }
}

/// The leftmost occurrence of `d` in `h`, if any.
pub open spec fn locate_spec(h: Seq<char>, d: Seq<char>) -> Option<int> {
    first_found_from(h, d, 0)
}

/// What `first_found_from` returns: the least occurrence at or after `from`,
/// or the promise that there is none.
pub proof fn lemma_first_found_from(h: Seq<char>, d: Seq<char>, from: int)
    requires
        0 <= from,
    ensures
        match first_found_from(h, d, from) {
            Some(i) => {
                &&& from <= i
                &&& found_at(h, d, i)
                &&& forall|j: int| from <= j < i ==> !found_at(h, d, j)
            },
            None => forall|j: int| from <= j ==> !found_at(h, d, j),
        },
    decreases h.len() - from,
{
    if from > h.len() {
    } else if found_at(h, d, from) {
    } else if from == h.len() {
    } else {
        lemma_first_found_from(h, d, from + 1);
    }
}

/// An occurrence at `i` with none before it is exactly what
/// `first_found_from` returns.
pub proof fn lemma_first_found_from_is(h: Seq<char>, d: Seq<char>, from: int, i: int)
    requires
        0 <= from <= i,
        found_at(h, d, i),
        forall|j: int| from <= j < i ==> !found_at(h, d, j),
    ensures
        first_found_from(h, d, from) == Some(i),
    decreases i - from,
{
    if from < i {
        lemma_first_found_from_is(h, d, from + 1, i);
    }
}

/// A value that can locate the first occurrence of itself within a text
/// view, reporting the half-open character span it occupies there.
pub trait Delimiter {
    /// The character sequence that this delimiter matches.
    spec fn matched(&self) -> Seq<char>;

    /// Locate the leftmost occurrence of this delimiter in `s`.
    ///
    /// Returns the half-open span `(start, end)` of that occurrence, or
    /// `None` when the delimiter occurs nowhere in `s`.
    fn locate_itself(&self, s: &str) -> (r: Option<(usize, usize)>)
        ensures
            match r {
                Some(span) => {
                    &&& locate_spec(s@, self.matched()) == Some(span.0 as int)
                    &&& span.1 == span.0 + self.matched().len()
                },
                None => locate_spec(s@, self.matched()) is None,
            },
    ;
}

/// Whether `d@` occurs in `s` at character position `i`, by direct
/// comparison of the characters.
fn occurs_at(s: &str, d: &str, i: usize) -> (b: bool)
    requires
        d@.len() >= 1,
        i + d@.len() <= s@.len(),
        s@.len() <= usize::MAX,
    ensures
        b == found_at(s@, d@, i as int),
{
    let m = d.unicode_len();
    let mut k: usize = 0;
    while k < m
        invariant
            0 <= k <= m,
            m == d@.len(),
            i + m <= s@.len(),
            s@.len() <= usize::MAX,
            forall|t: int| 0 <= t < k ==> s@[i + t] == d@[t],
        decreases m - k,
    {
        if s.get_char(i + k) != d.get_char(k) {
            proof {
                assert(!found_at(s@, d@, i as int)) by {
                    if found_at(s@, d@, i as int) {
                        assert(s@.subrange(i as int, i + d@.len())[k as int] == d@[k as int]);
                    }
                }
            }
            return false;
        }
        k = k + 1;
    }
    proof {
        assert(s@.subrange(i as int, i + d@.len()) =~= d@);
    }
    true
}

impl<'a> Delimiter for &'a str {
    /// A literal pattern matches exactly its own text.
    open spec fn matched(&self) -> Seq<char> {
        (*self)@
    }

    /// Forward scan for the leftmost exact occurrence of the pattern.
    /// Matching is character-exact and case-sensitive; an empty pattern
    /// never matches.
    fn locate_itself(&self, s: &str) -> (r: Option<(usize, usize)>) {
        let m = self.unicode_len();
        let n = s.unicode_len();
        if m == 0 || m > n {
            proof {
                lemma_first_found_from(s@, (*self)@, 0);
            }
            return None;
        }
        let mut i: usize = 0;
        while i <= n - m
            invariant
                1 <= m <= n,
                m == (*self)@.len(),
                n == s@.len(),
                0 <= i <= n - m + 1,
                forall|j: int| 0 <= j < i ==> !found_at(s@, (*self)@, j),
            decreases n - i,
        {
            if occurs_at(s, self, i) {
                proof {
                    lemma_first_found_from_is(s@, (*self)@, 0, i as int);
                }
                return Some((i, i + m));
            }
            i = i + 1;
        }
        proof {
            lemma_first_found_from(s@, (*self)@, 0);
        }
        None
    }
}

impl Delimiter for char {
    /// A character delimiter matches exactly itself.
    open spec fn matched(&self) -> Seq<char> {
        seq![*self]
    }

    /// Scan by decoded character position for the first character equal to
    /// the delimiter; the span it occupies is a single character wide.
    fn locate_itself(&self, s: &str) -> (r: Option<(usize, usize)>) {
        let n = s.unicode_len();
        let mut i: usize = 0;
        while i < n
            invariant
                0 <= i <= n,
                n == s@.len(),
                forall|j: int| 0 <= j < i ==> !found_at(s@, seq![*self], j),
            decreases n - i,
        {
            if s.get_char(i) == *self {
                proof {
                    assert(s@.subrange(i as int, i + 1) =~= seq![*self]);
                    lemma_first_found_from_is(s@, seq![*self], 0, i as int);
                }
                return Some((i, i + 1));
            }
            proof {
                assert(!found_at(s@, seq![*self], i as int)) by {
                    if found_at(s@, seq![*self], i as int) {
                        assert(s@.subrange(i as int, i + 1)[0] == seq![*self][0]);
                    }
                }
            }
            i = i + 1;
        }
        proof {
            lemma_first_found_from(s@, seq![*self], 0);
        }
        None
    }
}

} // verus!
