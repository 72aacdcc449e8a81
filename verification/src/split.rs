//! The splitting iterator itself.
//!
//! [`split_spec`] is the mathematical account of splitting: the sequence of
//! segments that lie between successive leftmost delimiter occurrences.
//! [`StrSplit`] produces exactly that sequence, one borrowed segment per
//! step, and [`until_char`] returns the first of them.

use vstd::prelude::*;
use vstd::string::StrSliceExecFns;

use crate::matcher::lemma_first_found_from;
use crate::matcher::locate_spec;
use crate::matcher::Delimiter;

verus! {

/// The segments of `h` delimited by `d`: the text before the leftmost
/// occurrence of `d`, followed by the segments of what comes after that
/// occurrence. When `d` does not occur in `h` (in particular when `h` is
/// exhausted or `d` is empty), the single segment is `h` itself.
pub open spec fn split_spec(h: Seq<char>, d: Seq<char>) -> Seq<Seq<char>>
    decreases h.len() via split_spec_decreases
{
    match locate_spec(h, d) {
        Some(i) => seq![h.subrange(0, i)] + split_spec(h.subrange(i + d.len(), h.len() as int), d),
        None => seq![h],
    }
}

#[via_fn]
proof fn split_spec_decreases(h: Seq<char>, d: Seq<char>) {
    lemma_first_found_from(h, d, 0);
}

/// Splitting yields at least one segment, whatever the haystack and the
/// delimiter: even an empty haystack yields the single segment `""`.
pub proof fn lemma_split_at_least_one(h: Seq<char>, d: Seq<char>)
    ensures
        split_spec(h, d).len() >= 1,
{
    match locate_spec(h, d) {
        Some(i) => {}
        None => {}
    }
}

/// A lazy splitter over a borrowed haystack.
///
/// Each step yields the next segment as a subslice of the original input;
/// no text is ever copied. Once the splitter reports exhaustion it stays
/// exhausted forever.
pub struct StrSplit<'h, D: Delimiter> {
    remainder: Option<&'h str>,
    delimiter: D,
}

impl<'h, D: Delimiter> StrSplit<'h, D> {
    /// The not-yet-emitted suffix of the haystack, or `None` once the
    /// splitter is exhausted.
    pub closed spec fn rem(&self) -> Option<Seq<char>> {
        match self.remainder {
            Some(r) => Some(r@),
            None => None,
        }
    }

    /// The character sequence the stored delimiter matches.
    pub closed spec fn delim(&self) -> Seq<char> {
        self.delimiter.matched()
    }

    /// The segments this splitter has yet to emit, in order.
    pub open spec fn future(&self) -> Seq<Seq<char>> {
        match self.rem() {
            Some(r) => split_spec(r, self.delim()),
            None => Seq::empty(),
        }
    }

    /// A splitter over the whole of `haystack`, with `delimiter` stored
    /// unchanged.
    pub fn new(haystack: &'h str, delimiter: D) -> (it: Self)
        ensures
            it.rem() == Some(haystack@),
            it.delim() == delimiter.matched(),
            it.future() == split_spec(haystack@, delimiter.matched()),
    {
        StrSplit { remainder: Some(haystack), delimiter }
    }

    /// The next segment, or `None` once every segment has been emitted.
    ///
    /// Each call either yields the first segment still owed — leaving the
    /// rest for later calls — or reports exhaustion; exhaustion is permanent.
    pub fn next(&mut self) -> (r: Option<&'h str>)
        ensures
            final(self).delim() == old(self).delim(),
            final(self).rem() is None <==> final(self).future().len() == 0,
            match r {
                Some(seg) => {
                    &&& old(self).rem() is Some
                    &&& old(self).future().len() >= 1
                    &&& seg@ == old(self).future()[0]
                    &&& final(self).future() == old(self).future().drop_first()
                },
                None => {
                    &&& old(self).rem() is None
                    &&& final(self).rem() is None
                },
            },
    {
        let rem = match self.remainder {
            Some(r) => r,
            None => {
                return None;
            },
        };
        let ghost d = self.delimiter.matched();
        match self.delimiter.locate_itself(rem) {
            Some((start, end)) => {
                proof {
                    lemma_first_found_from(rem@, d, 0);
                }
                let n = rem.unicode_len();
                let before = rem.substring_char(0, start);
                let after = rem.substring_char(end, n);
                self.remainder = Some(after);
                proof {
                    assert(after@ =~= rem@.subrange(start + d.len(), rem@.len() as int));
                    assert(split_spec(rem@, d) == seq![rem@.subrange(0, start as int)]
                        + split_spec(after@, d));
                    assert((seq![rem@.subrange(0, start as int)] + split_spec(after@, d))
                        .drop_first() =~= split_spec(after@, d));
                    lemma_split_at_least_one(after@, d);
                }
                Some(before)
            },
            None => {
                self.remainder = None;
                proof {
                    assert(split_spec(rem@, d) == seq![rem@]);
                    assert(seq![rem@].drop_first() =~= Seq::<Seq<char>>::empty());
                }
                Some(rem)
            },
        }
    }
}

/// The text of `s` strictly before the first occurrence of the character
/// `c`, or the whole of `s` when `c` does not occur in it: the first
/// segment the splitter emits for `s` and `c`.
pub fn until_char<'s>(s: &'s str, c: char) -> (r: &'s str)
    ensures
        r@ == split_spec(s@, seq![c])[0],
        match locate_spec(s@, seq![c]) {
            Some(i) => r@ == s@.subrange(0, i),
            None => r@ == s@,
        },
{
    let mut it = StrSplit::new(s, c);
    proof {
        lemma_split_at_least_one(s@, seq![c]);
    }
    let r = it.next();
    r.unwrap()
}

} // verus!
