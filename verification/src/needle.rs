//! Needles: things that can be sought ahead of the cursor.
//!
//! A needle occurs at certain positions of the input; searching yields the
//! first occurrence at or after the cursor. Single items and literal
//! sequences are both needles.

use vstd::prelude::*;

use crate::charlike::PlainItem;

verus! {

/// A literal that can be searched for in the input.
pub trait Needle<T>: Sized {
    /// How many items an occurrence covers.
    spec fn needle_len(&self) -> int;

    /// Whether the needle occurs at position `i` of `input`.
    spec fn occurs_at(&self, input: Seq<T>, i: int) -> bool;

    /// An occurrence lies inside the input, and the length is never negative.
    proof fn lemma_occurs_bounds(&self, input: Seq<T>, i: int)
        ensures
            self.needle_len() >= 0,
            self.occurs_at(input, i) ==> 0 <= i && i + self.needle_len() <= input.len(),
    ;

    /// Decide whether the needle occurs at position `i`.
    fn occurs_here(&self, input: &[T], i: usize) -> (r: bool)
        requires
            i <= input.len(),
        ensures
            r == self.occurs_at(input@, i as int),
    ;

    /// The executable length of an occurrence.
    fn len_of(&self) -> (n: usize)
        ensures
            n as int == self.needle_len(),
    ;
}

/// The first position at or after `pos` where the needle occurs.
pub open spec fn first_occurrence<T, N: Needle<T>>(n: &N, input: Seq<T>, pos: int) -> Option<int>
    decreases input.len() - pos when 0 <= pos <= input.len()
{
    if n.occurs_at(input, pos) {
        Some(pos)
    } else if pos >= input.len() {
        None
    } else {
        first_occurrence(n, input, pos + 1)
    }
}

/// What `first_occurrence` yields is an occurrence, lies between `pos` and
/// the end of the input, and nothing before it is one; `None` means there is
/// no occurrence at or after `pos`.
pub proof fn lemma_first_occurrence<T, N: Needle<T>>(n: &N, input: Seq<T>, pos: int)
    requires
        0 <= pos <= input.len(),
    ensures
        (match first_occurrence(n, input, pos) {
            Some(at) => {
                &&& pos <= at && at + n.needle_len() <= input.len()
                &&& n.occurs_at(input, at)
                &&& forall|j: int| pos <= j < at ==> !n.occurs_at(input, j)
            },
            None => forall|j: int| pos <= j <= input.len() ==> !n.occurs_at(input, j),
        }),
    decreases input.len() - pos,
{
    n.lemma_occurs_bounds(input, pos);
    if !n.occurs_at(input, pos) && pos < input.len() {
        lemma_first_occurrence(n, input, pos + 1);
    }
}

/// Find the first occurrence of a needle at or after `pos`.
pub fn find_first<T, N: Needle<T>>(n: &N, input: &[T], pos: usize) -> (r: Option<usize>)
    requires
        pos <= input.len(),
    ensures
        (match r {
            Some(at) => first_occurrence(n, input@, pos as int) == Some(at as int),
            None => first_occurrence(n, input@, pos as int) is None,
        }),
{
    let ilen = input.len();
    let mut i: usize = pos;
    loop
        invariant
            pos <= i <= ilen == input@.len(),
            first_occurrence(n, input@, pos as int) == first_occurrence(n, input@, i as int),
        decreases ilen - i,
    {
        if n.occurs_here(input, i) {
            return Some(i);
        }
        if i >= ilen {
            return None;
        }
        i = i + 1;
    }
}

/// A single item is a needle of length one.
impl<T: PlainItem> Needle<T> for T {
    open spec fn needle_len(&self) -> int {
        1
    }

    open spec fn occurs_at(&self, input: Seq<T>, i: int) -> bool {
        0 <= i < input.len() && input[i] == *self
    }

    proof fn lemma_occurs_bounds(&self, input: Seq<T>, i: int) {
    }

    fn occurs_here(&self, input: &[T], i: usize) -> (r: bool) {
        if i < input.len() {
            let x = *vstd::slice::slice_index_get(input, i);
            x.item_eq(*self)
        } else {
            false
        }
    }

    fn len_of(&self) -> (n: usize) {
        1
    }
}

/// A literal sequence is a needle covering its own length; the empty
/// sequence occurs everywhere.
impl<T: PlainItem> Needle<T> for Vec<T> {
    open spec fn needle_len(&self) -> int {
        self@.len() as int
    }

    open spec fn occurs_at(&self, input: Seq<T>, i: int) -> bool {
        0 <= i && i + self@.len() <= input.len() && input.subrange(i, i + self@.len()) == self@
    }

    proof fn lemma_occurs_bounds(&self, input: Seq<T>, i: int) {
    }

    fn occurs_here(&self, input: &[T], i: usize) -> (r: bool) {
        let ilen = input.len();
        let n = self.len();
        if n > ilen - i {
            return false;
        }
        let mut j: usize = 0;
        while j < n
            invariant
                0 <= j <= n == self@.len(),
                i + n <= ilen == input@.len(),
                forall|k: int| 0 <= k < j ==> input@[i + k] == self@[k],
            decreases n - j,
        {
            let a = *vstd::slice::slice_index_get(input, i + j);
            let b = *vstd::slice::slice_index_get(self.as_slice(), j);
            if !a.item_eq(b) {
                proof {
                    let k = j as int;
                    assert(input@.subrange(i as int, i + self@.len())[k] != self@[k]);
                }
                return false;
            }
            j = j + 1;
        }
        proof {
            assert(input@.subrange(i as int, i + self@.len()) =~= self@);
        }
        true
    }

    fn len_of(&self) -> (n: usize) {
        self.len()
    }
}

} // verus!
