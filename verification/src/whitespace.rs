//! Whitespace parsers: prefixes that strip leading ASCII or Unicode
//! whitespace. They match zero or more items, so they never fail.

use vstd::prelude::*;
use vstd::slice::{slice_subrange, slice_to_vec};

use crate::charlike::{lemma_vec_deep_view_id, CharLike};
use crate::parsers::{lemma_scan_while, scan_while, IsAsciiWhitespace, ItemPred};
use crate::prefix::{Ignore, Prefix};
use crate::parsers::Take;

verus! {

/// Whether a character counts as Unicode whitespace. The name stands for
/// the Unicode `White_Space` property, which is a function of the character
/// alone.
pub uninterp spec fn spec_is_unicode_ws(c: char) -> bool;

/// Relies on char::is_whitespace: whether the character has the Unicode
/// `White_Space` property.
#[verifier::external_body]
fn char_is_whitespace(c: char) -> (r: bool)
    ensures
        r == spec_is_unicode_ws(c),
{
    c.is_whitespace()
}

/// The predicate that accepts Unicode whitespace.
#[derive(Clone, Copy)]
pub struct IsUnicodeWhitespace;

impl<T: CharLike> ItemPred<T> for IsUnicodeWhitespace {
    open spec fn spec_pred(&self, x: T) -> bool {
        spec_is_unicode_ws(x.spec_char())
    }

    fn pred(&self, x: T) -> (r: bool) {
        char_is_whitespace(x.as_char())
    }
}

/// A prefix matching zero or more ASCII whitespace items.
#[derive(Clone, Copy)]
pub struct AsciiWhitespace;

/// A prefix matching zero or more Unicode whitespace items.
#[derive(Clone, Copy)]
pub struct Utf8Whitespace;

impl<T: CharLike> Prefix<T> for AsciiWhitespace {
    type Out = Vec<T>;

    open spec fn spec_strip(&self, input: Seq<T>, pos: int) -> Option<(int, Seq<T>)> {
        let stop = scan_while(&IsAsciiWhitespace, input, pos);
        Some((stop - pos, input.subrange(pos, stop)))
    }

    proof fn lemma_strip_bounds(&self, input: Seq<T>, pos: int) {
        lemma_scan_while(&IsAsciiWhitespace, input, pos);
    }

    fn strip(&self, input: &[T], pos: usize) -> (r: Option<(usize, Vec<T>)>) {
        let ilen = input.len();
        let mut i: usize = pos;
        while i < ilen && (IsAsciiWhitespace).pred(*vstd::slice::slice_index_get(input, i))
            invariant
                pos <= i <= ilen == input@.len(),
                scan_while(&IsAsciiWhitespace, input@, pos as int) == scan_while(
                    &IsAsciiWhitespace,
                    input@,
                    i as int,
                ),
            decreases ilen - i,
        {
            i = i + 1;
        }
        proof {
            assert(scan_while(&IsAsciiWhitespace, input@, i as int) == i as int);
        }
        let matched = slice_to_vec(slice_subrange(input, pos, i));
        proof {
            lemma_vec_deep_view_id(&matched);
        }
        Some((i - pos, matched))
    }
}

impl<T: CharLike> Prefix<T> for Utf8Whitespace {
    type Out = Vec<T>;

    open spec fn spec_strip(&self, input: Seq<T>, pos: int) -> Option<(int, Seq<T>)> {
        let stop = scan_while(&IsUnicodeWhitespace, input, pos);
        Some((stop - pos, input.subrange(pos, stop)))
    }

    proof fn lemma_strip_bounds(&self, input: Seq<T>, pos: int) {
        lemma_scan_while(&IsUnicodeWhitespace, input, pos);
    }

    fn strip(&self, input: &[T], pos: usize) -> (r: Option<(usize, Vec<T>)>) {
        let ilen = input.len();
        let mut i: usize = pos;
        while i < ilen && (IsUnicodeWhitespace).pred(*vstd::slice::slice_index_get(input, i))
            invariant
                pos <= i <= ilen == input@.len(),
                scan_while(&IsUnicodeWhitespace, input@, pos as int) == scan_while(
                    &IsUnicodeWhitespace,
                    input@,
                    i as int,
                ),
            decreases ilen - i,
        {
            i = i + 1;
        }
        proof {
            assert(scan_while(&IsUnicodeWhitespace, input@, i as int) == i as int);
        }
        let matched = slice_to_vec(slice_subrange(input, pos, i));
        proof {
            lemma_vec_deep_view_id(&matched);
        }
        Some((i - pos, matched))
    }
}

/// Create a parser that parses and returns leading ASCII whitespace.
pub fn ascii_whitespace() -> (r: Take<AsciiWhitespace>)
    ensures
        r == (Take { prefix: AsciiWhitespace }),
{
    Take { prefix: AsciiWhitespace }
}

/// Create a parser that parses and ignores leading ASCII whitespace.
pub fn skip_ascii_whitespace() -> (r: Take<Ignore<AsciiWhitespace>>)
    ensures
        r == (Take { prefix: Ignore(AsciiWhitespace) }),
{
    Take { prefix: Ignore(AsciiWhitespace) }
}

/// Create a parser that parses and returns leading Unicode whitespace.
pub fn whitespace() -> (r: Take<Utf8Whitespace>)
    ensures
        r == (Take { prefix: Utf8Whitespace }),
{
    Take { prefix: Utf8Whitespace }
}

/// Create a parser that parses and ignores leading Unicode whitespace.
pub fn skip_whitespace() -> (r: Take<Ignore<Utf8Whitespace>>)
    ensures
        r == (Take { prefix: Ignore(Utf8Whitespace) }),
{
    Take { prefix: Ignore(Utf8Whitespace) }
}

} // verus!
