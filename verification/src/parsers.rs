//! Leaf parsers: the smallest building blocks of a grammar.

use vstd::prelude::*;
use vstd::slice::{slice_subrange, slice_to_vec};

use crate::charlike::{lemma_vec_deep_view_id, CharLike, PlainItem};
use crate::engine::Parser;
use crate::needle::{find_first, first_occurrence, lemma_first_occurrence, Needle};
use crate::prefix::{Ignore, Prefix};

verus! {

/// A decidable predicate on items.
pub trait ItemPred<T>: Sized {
    /// The meaning of the predicate.
    spec fn spec_pred(&self, x: T) -> bool;

    /// Decide the predicate.
    fn pred(&self, x: T) -> (r: bool)
        ensures
            r == self.spec_pred(x),
    ;
}

/// The predicate that accepts every item.
#[derive(Clone, Copy)]
pub struct AnyItem;

impl<T> ItemPred<T> for AnyItem {
    open spec fn spec_pred(&self, x: T) -> bool {
        true
    }

    fn pred(&self, x: T) -> (r: bool) {
        true
    }
}

/// The predicate that accepts one given item.
#[derive(Clone, Copy)]
pub struct ItemIs<T>(pub T);

impl<T: PlainItem> ItemPred<T> for ItemIs<T> {
    open spec fn spec_pred(&self, x: T) -> bool {
        x == self.0
    }

    fn pred(&self, x: T) -> (r: bool) {
        x.item_eq(self.0)
    }
}

/// Whether a character is a decimal digit.
pub open spec fn spec_is_ascii_digit(c: char) -> bool {
    '0' <= c && c <= '9'
}

/// The predicate that accepts decimal digits.
#[derive(Clone, Copy)]
pub struct IsAsciiDigit;

impl<T: CharLike> ItemPred<T> for IsAsciiDigit {
    open spec fn spec_pred(&self, x: T) -> bool {
        spec_is_ascii_digit(x.spec_char())
    }

    fn pred(&self, x: T) -> (r: bool) {
        let c = x.as_char();
        '0' <= c && c <= '9'
    }
}

/// Whether a character is ASCII whitespace: space, tab, newline, form feed
/// or carriage return.
pub open spec fn spec_is_ascii_ws(c: char) -> bool {
    c == ' ' || c == '\t' || c == '\n' || c == '\u{c}' || c == '\r'
}

/// The predicate that accepts ASCII whitespace.
#[derive(Clone, Copy)]
pub struct IsAsciiWhitespace;

impl<T: CharLike> ItemPred<T> for IsAsciiWhitespace {
    open spec fn spec_pred(&self, x: T) -> bool {
        spec_is_ascii_ws(x.spec_char())
    }

    fn pred(&self, x: T) -> (r: bool) {
        let c = x.as_char();
        c == ' ' || c == '\t' || c == '\n' || c == '\u{c}' || c == '\r'
    }
}

/// Whether a character is an ASCII letter or digit.
pub open spec fn spec_is_ascii_alnum(c: char) -> bool {
    ('0' <= c && c <= '9') || ('a' <= c && c <= 'z') || ('A' <= c && c <= 'Z')
}

/// The predicate that accepts ASCII letters and digits.
#[derive(Clone, Copy)]
pub struct IsAsciiAlphanumeric;

impl<T: CharLike> ItemPred<T> for IsAsciiAlphanumeric {
    open spec fn spec_pred(&self, x: T) -> bool {
        spec_is_ascii_alnum(x.spec_char())
    }

    fn pred(&self, x: T) -> (r: bool) {
        let c = x.as_char();
        ('0' <= c && c <= '9') || ('a' <= c && c <= 'z') || ('A' <= c && c <= 'Z')
    }
}

/// A parser that always succeeds, consuming nothing.
#[derive(Clone, Copy)]
pub struct Success;

/// Create a parser that always succeeds.
pub fn success() -> (r: Success)
    ensures
        r == Success,
{
    Success
}

impl<T> Parser<T> for Success {
    type Out = ();

    open spec fn spec_run(&self, input: Seq<T>, pos: int) -> (int, Option<()>) {
        (pos, Some(()))
    }

    proof fn lemma_run_bounds(&self, input: Seq<T>, pos: int) {
    }

    fn run(&self, input: &[T], pos: usize) -> (r: (usize, Option<()>)) {
        (pos, Some(()))
    }
}

/// A parser that always fails, consuming nothing.
#[derive(Clone, Copy)]
pub struct Failure;

/// Create a parser that always fails.
pub fn failure() -> (r: Failure)
    ensures
        r == Failure,
{
    Failure
}

impl<T> Parser<T> for Failure {
    type Out = ();

    open spec fn spec_run(&self, input: Seq<T>, pos: int) -> (int, Option<()>) {
        (pos, None)
    }

    proof fn lemma_run_bounds(&self, input: Seq<T>, pos: int) {
    }

    fn run(&self, input: &[T], pos: usize) -> (r: (usize, Option<()>)) {
        (pos, None)
    }
}

/// A parser for a single item satisfying a predicate.
#[derive(Clone, Copy)]
pub struct ItemIf<F> {
    /// The predicate the item must satisfy.
    pub pred: F,
}

/// Create a parser that parses a single item matching the provided predicate.
pub fn item_if<F>(pred: F) -> (r: ItemIf<F>)
    ensures
        r == (ItemIf { pred }),
{
    ItemIf { pred }
}

/// Create a parser that parses any single item.
pub fn item() -> (r: ItemIf<AnyItem>)
    ensures
        r == (ItemIf { pred: AnyItem }),
{
    ItemIf { pred: AnyItem }
}

impl<T: PlainItem, F: ItemPred<T>> Parser<T> for ItemIf<F> {
    type Out = T;

    open spec fn spec_run(&self, input: Seq<T>, pos: int) -> (int, Option<T>) {
        if pos < input.len() && self.pred.spec_pred(input[pos]) {
            (pos + 1, Some(input[pos]))
        } else {
            (pos, None)
        }
    }

    proof fn lemma_run_bounds(&self, input: Seq<T>, pos: int) {
    }

    fn run(&self, input: &[T], pos: usize) -> (r: (usize, Option<T>)) {
        if pos < input.len() {
            let x = *vstd::slice::slice_index_get(input, pos);
            if self.pred.pred(x) {
                proof {
                    x.lemma_deep_view_id();
                }
                return (pos + 1, Some(x));
            }
        }
        (pos, None)
    }
}

/// The position where a scan that consumes items satisfying `f` stops.
pub open spec fn scan_while<T, F: ItemPred<T>>(f: &F, input: Seq<T>, pos: int) -> int
    decreases input.len() - pos when 0 <= pos <= input.len()
{
    if pos >= input.len() {
        pos
    } else if !f.spec_pred(input[pos]) {
        pos
    } else {
        scan_while(f, input, pos + 1)
    }
}

/// A scan stops inside the input, everything it passed satisfies the
/// predicate, and the item it stopped at, if any, does not.
pub proof fn lemma_scan_while<T, F: ItemPred<T>>(f: &F, input: Seq<T>, pos: int)
    requires
        0 <= pos <= input.len(),
    ensures
        ({
            let r = scan_while(f, input, pos);
            &&& pos <= r <= input.len()
            &&& forall|j: int| pos <= j < r ==> f.spec_pred(input[j])
            &&& r < input.len() ==> !f.spec_pred(input[r])
        }),
    decreases input.len() - pos,
{
    if pos < input.len() && f.spec_pred(input[pos]) {
        lemma_scan_while(f, input, pos + 1);
    }
}

/// A parser that consumes items while they satisfy a predicate.
/// It never fails; an empty match is a success.
#[derive(Clone, Copy)]
pub struct ItemWhile<F> {
    /// The predicate the items must satisfy.
    pub pred: F,
}

/// Create a parser that parses while the items in the input match the
/// predicate.
pub fn item_while<F>(pred: F) -> (r: ItemWhile<F>)
    ensures
        r == (ItemWhile { pred }),
{
    ItemWhile { pred }
}

impl<T: PlainItem, F: ItemPred<T>> Parser<T> for ItemWhile<F> {
    type Out = Vec<T>;

    open spec fn spec_run(&self, input: Seq<T>, pos: int) -> (int, Option<Seq<T>>) {
        let stop = scan_while(&self.pred, input, pos);
        (stop, Some(input.subrange(pos, stop)))
    }

    proof fn lemma_run_bounds(&self, input: Seq<T>, pos: int) {
        lemma_scan_while(&self.pred, input, pos);
    }

    fn run(&self, input: &[T], pos: usize) -> (r: (usize, Option<Vec<T>>)) {
        let ilen = input.len();
        let mut i: usize = pos;
        while i < ilen && self.pred.pred(*vstd::slice::slice_index_get(input, i))
            invariant
                pos <= i <= ilen == input@.len(),
                scan_while(&self.pred, input@, pos as int) == scan_while(
                    &self.pred,
                    input@,
                    i as int,
                ),
            decreases ilen - i,
        {
            i = i + 1;
        }
        proof {
            assert(scan_while(&self.pred, input@, i as int) == i as int);
        }
        let matched = slice_to_vec(slice_subrange(input, pos, i));
        proof {
            lemma_vec_deep_view_id(&matched);
        }
        (i, Some(matched))
    }
}

/// A parser for a literal prefix, yielding the prefix's value.
#[derive(Clone, Copy)]
pub struct Take<P> {
    /// The prefix to match.
    pub prefix: P,
}

/// Create a parser for matching the provided prefix.
/// Returns the parsed prefix on success.
pub fn take<P>(prefix: P) -> (r: Take<P>)
    ensures
        r == (Take { prefix }),
{
    Take { prefix }
}

/// Create a parser for matching the provided prefix, ignoring its value.
pub fn skip<P>(prefix: P) -> (r: Take<Ignore<P>>)
    ensures
        r == (Take { prefix: Ignore(prefix) }),
{
    Take { prefix: Ignore(prefix) }
}

impl<T, P: Prefix<T>> Parser<T> for Take<P> {
    type Out = P::Out;

    open spec fn spec_run(&self, input: Seq<T>, pos: int) -> (
        int,
        Option<<P::Out as DeepView>::V>,
    ) {
        match self.prefix.spec_strip(input, pos) {
            Some((n, v)) => (pos + n, Some(v)),
            None => (pos, None),
        }
    }

    proof fn lemma_run_bounds(&self, input: Seq<T>, pos: int) {
        self.prefix.lemma_strip_bounds(input, pos);
    }

    fn run(&self, input: &[T], pos: usize) -> (r: (usize, Option<P::Out>)) {
        proof {
            self.prefix.lemma_strip_bounds(input@, pos as int);
        }
        match self.prefix.strip(input, pos) {
            Some((n, v)) => (pos + n, Some(v)),
            None => (pos, None),
        }
    }
}

/// A parser that consumes up to and including the first occurrence of a
/// needle, yielding the items before it.
#[derive(Clone, Copy)]
pub struct Until<N> {
    /// The needle to search for.
    pub needle: N,
}

/// Create a parser that parses until the input matches the provided needle.
/// On success, the items before the needle are returned, and the needle
/// itself is consumed as well.
pub fn until<N>(needle: N) -> (r: Until<N>)
    ensures
        r == (Until { needle }),
{
    Until { needle }
}

impl<T: PlainItem, N: Needle<T>> Parser<T> for Until<N> {
    type Out = Vec<T>;

    open spec fn spec_run(&self, input: Seq<T>, pos: int) -> (int, Option<Seq<T>>) {
        match first_occurrence(&self.needle, input, pos) {
            Some(at) => (at + self.needle.needle_len(), Some(input.subrange(pos, at))),
            None => (pos, None),
        }
    }

    proof fn lemma_run_bounds(&self, input: Seq<T>, pos: int) {
        self.needle.lemma_occurs_bounds(input, pos);
        lemma_first_occurrence(&self.needle, input, pos);
    }

    fn run(&self, input: &[T], pos: usize) -> (r: (usize, Option<Vec<T>>)) {
        proof {
            self.needle.lemma_occurs_bounds(input@, pos as int);
            lemma_first_occurrence(&self.needle, input@, pos as int);
        }
        match find_first(&self.needle, input, pos) {
            Some(at) => {
                let matched = slice_to_vec(slice_subrange(input, pos, at));
                proof {
                    lemma_vec_deep_view_id(&matched);
                }
                (at + self.needle.len_of(), Some(matched))
            },
            None => (pos, None),
        }
    }
}

/// A parser that consumes and yields the rest of the input. It never fails.
#[derive(Clone, Copy)]
pub struct Rest;

/// Create a parser that parses the rest of the input.
pub fn rest() -> (r: Rest)
    ensures
        r == Rest,
{
    Rest
}

impl<T: PlainItem> Parser<T> for Rest {
    type Out = Vec<T>;

    open spec fn spec_run(&self, input: Seq<T>, pos: int) -> (int, Option<Seq<T>>) {
        (input.len() as int, Some(input.subrange(pos, input.len() as int)))
    }

    proof fn lemma_run_bounds(&self, input: Seq<T>, pos: int) {
    }

    fn run(&self, input: &[T], pos: usize) -> (r: (usize, Option<Vec<T>>)) {
        let matched = slice_to_vec(slice_subrange(input, pos, input.len()));
        proof {
            lemma_vec_deep_view_id(&matched);
        }
        (input.len(), Some(matched))
    }
}

/// A parser that succeeds, with an empty result, only at the end of the
/// input. It consumes nothing.
#[derive(Clone, Copy)]
pub struct Empty;

/// Create a parser that is successful only if the input is empty.
pub fn empty() -> (r: Empty)
    ensures
        r == Empty,
{
    Empty
}

impl<T: PlainItem> Parser<T> for Empty {
    type Out = Vec<T>;

    open spec fn spec_run(&self, input: Seq<T>, pos: int) -> (int, Option<Seq<T>>) {
        if pos == input.len() {
            (pos, Some(Seq::empty()))
        } else {
            (pos, None)
        }
    }

    proof fn lemma_run_bounds(&self, input: Seq<T>, pos: int) {
    }

    fn run(&self, input: &[T], pos: usize) -> (r: (usize, Option<Vec<T>>)) {
        if pos == input.len() {
            let matched: Vec<T> = Vec::new();
            proof {
                lemma_vec_deep_view_id(&matched);
                assert(matched.deep_view() =~= Seq::<T>::empty());
            }
            (pos, Some(matched))
        } else {
            (pos, None)
        }
    }
}

} // verus!
