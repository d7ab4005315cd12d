//! Traits for the items a parser can read: plain equality, and conversion
//! to `char` so that one grammar can run over both text and byte input.

use vstd::prelude::*;

verus! {

/// Items with a decidable equality that matches the mathematical one, and
/// whose ghost image is the item itself.
pub trait PlainItem: Copy + Sized + DeepView<V = Self> {
    /// Decide equality of two items.
    fn item_eq(self, other: Self) -> (r: bool)
        ensures
            r == (self == other),
    ;

    /// An item is its own ghost image.
    proof fn lemma_deep_view_id(self)
        ensures
            self.deep_view() == self,
    ;
}

impl PlainItem for u8 {
    fn item_eq(self, other: Self) -> (r: bool) {
        self == other
    }

    proof fn lemma_deep_view_id(self) {
    }
}

impl PlainItem for char {
    fn item_eq(self, other: Self) -> (r: bool) {
        self == other
    }

    proof fn lemma_deep_view_id(self) {
    }
}

/// A sequence of items is its own elementwise ghost image.
pub broadcast proof fn lemma_vec_deep_view_id<T: PlainItem>(v: &Vec<T>)
    ensures
        #[trigger] v.deep_view() == v@,
{
    assert forall|i: int| 0 <= i < v@.len() implies v.deep_view()[i] == v@[i] by {
        v@[i].lemma_deep_view_id();
    }
    assert(v.deep_view() =~= v@);
}

/// Items that can be read as a character: `char` itself, and `u8`, whose
/// values name the first 256 code points.
pub trait CharLike: PlainItem {
    /// The character this item stands for.
    spec fn spec_char(self) -> char;

    /// Convert this item to a character.
    fn as_char(self) -> (c: char)
        ensures
            c == self.spec_char(),
    ;
}

impl CharLike for u8 {
    open spec fn spec_char(self) -> char {
        self as char
    }

    fn as_char(self) -> (c: char) {
        self as char
    }
}

impl CharLike for char {
    open spec fn spec_char(self) -> char {
        self
    }

    fn as_char(self) -> (c: char) {
        self
    }
}

/// The decimal digit an item stands for, if any.
pub open spec fn spec_digit_of<T: CharLike>(x: T) -> Option<u8> {
    let c = x.spec_char();
    if '0' <= c && c <= '9' {
        Some((c as u8 - '0' as u8) as u8)
    } else {
        None
    }
}

/// Read an item as a decimal digit.
pub fn digit_of<T: CharLike>(x: T) -> (r: Option<u8>)
    ensures
        r == spec_digit_of(x),
{
    let c = x.as_char();
    if '0' <= c && c <= '9' {
        Some(c as u8 - '0' as u8)
    } else {
        None
    }
}

} // verus!
