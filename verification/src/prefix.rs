//! Literal prefixes: things that can be stripped from the front of a cursor.
//!
//! A prefix is matched at a position of the input; on success it reports how
//! many items it covers and yields its value. Single items and literal
//! sequences are both prefixes, and [`Ignore`] wraps any prefix to discard
//! its value.

use vstd::prelude::*;
use vstd::slice::{slice_subrange, slice_to_vec};

use crate::charlike::{lemma_vec_deep_view_id, PlainItem};

verus! {

/// A literal that can be removed from the front of the input.
pub trait Prefix<T>: Sized {
    /// The value produced when the prefix matches.
    type Out: DeepView;

    /// The meaning of the prefix: how many items it covers at `pos`, and its
    /// value, or `None` when it is not present there.
    spec fn spec_strip(&self, input: Seq<T>, pos: int) -> Option<
        (int, <Self::Out as DeepView>::V),
    >;

    /// A match always lies inside the input.
    proof fn lemma_strip_bounds(&self, input: Seq<T>, pos: int)
        requires
            0 <= pos <= input.len(),
        ensures
            self.spec_strip(input, pos) matches Some((n, _)) ==> 0 <= n && pos + n <= input.len(),
    ;

    /// Match the prefix at `pos`.
    fn strip(&self, input: &[T], pos: usize) -> (r: Option<(usize, Self::Out)>)
        requires
            pos <= input.len(),
        ensures
            (match r {
                Some((n, v)) => self.spec_strip(input@, pos as int) == Some(
                    (n as int, v.deep_view()),
                ),
                None => self.spec_strip(input@, pos as int) is None,
            }),
    ;
}

/// A single item is a prefix of length one.
impl<T: PlainItem> Prefix<T> for T {
    type Out = T;

    open spec fn spec_strip(&self, input: Seq<T>, pos: int) -> Option<(int, T)> {
        if pos < input.len() && input[pos] == *self {
            Some((1int, *self))
        } else {
            None
        }
    }

    proof fn lemma_strip_bounds(&self, input: Seq<T>, pos: int) {
    }

    fn strip(&self, input: &[T], pos: usize) -> (r: Option<(usize, T)>) {
        if pos < input.len() {
            let x = *vstd::slice::slice_index_get(input, pos);
            if x.item_eq(*self) {
                proof {
                    self.lemma_deep_view_id();
                }
                return Some((1, *self));
            }
        }
        None
    }
}

/// A literal sequence of items is a prefix covering its own length.
/// The empty sequence matches everywhere and covers nothing.
impl<T: PlainItem> Prefix<T> for Vec<T> {
    type Out = Vec<T>;

    open spec fn spec_strip(&self, input: Seq<T>, pos: int) -> Option<(int, Seq<T>)> {
        if pos + self@.len() <= input.len() && input.subrange(pos, pos + self@.len()) == self@ {
            Some((self@.len() as int, self@))
        } else {
            None
        }
    }

    proof fn lemma_strip_bounds(&self, input: Seq<T>, pos: int) {
    }

    fn strip(&self, input: &[T], pos: usize) -> (r: Option<(usize, Vec<T>)>) {
        let ilen = input.len();
        if self.len() > ilen - pos {
            return None;
        }
        let n = self.len();
        let mut i: usize = 0;
        while i < n
            invariant
                0 <= i <= n == self@.len(),
                pos + n <= ilen == input@.len(),
                forall|j: int| 0 <= j < i ==> input@[pos + j] == self@[j],
            decreases n - i,
        {
            let a = *vstd::slice::slice_index_get(input, pos + i);
            let b = *vstd::slice::slice_index_get(self.as_slice(), i);
            if !a.item_eq(b) {
                proof {
                    let k = i as int;
                    assert(input@.subrange(pos as int, pos + self@.len())[k] != self@[k]);
                }
                return None;
            }
            i = i + 1;
        }
        let matched = slice_to_vec(slice_subrange(input, pos, pos + n));
        proof {
            lemma_vec_deep_view_id(&matched);
            assert(input@.subrange(pos as int, pos + self@.len()) =~= self@);
        }
        Some((n, matched))
    }
}

/// Wrapper for a prefix whose value is not wanted.
#[derive(Clone, Copy)]
pub struct Ignore<P>(pub P);

impl<T, P: Prefix<T>> Prefix<T> for Ignore<P> {
    type Out = ();

    open spec fn spec_strip(&self, input: Seq<T>, pos: int) -> Option<(int, ())> {
        match self.0.spec_strip(input, pos) {
            Some((n, _)) => Some((n, ())),
            None => None,
        }
    }

    proof fn lemma_strip_bounds(&self, input: Seq<T>, pos: int) {
        self.0.lemma_strip_bounds(input, pos);
    }

    fn strip(&self, input: &[T], pos: usize) -> (r: Option<(usize, ())>) {
        match self.0.strip(input, pos) {
            Some((n, _)) => Some((n, ())),
            None => None,
        }
    }
}

} // verus!
