//! Combinators: functions that build a new parser from existing ones.
//!
//! Every combinator is a small configuration struct; its `spec_run` states
//! the combined behaviour in terms of the parts' `spec_run`, so the meaning
//! of a composed grammar unfolds mechanically. Back-tracking combinators
//! (`or`, `attempt`, `peek`, `greedy_or`) restore the cursor simply by
//! running from the saved position.

use vstd::prelude::*;
use vstd::slice::{slice_subrange, slice_to_vec};

use crate::charlike::{lemma_vec_deep_view_id, PlainItem};
use crate::engine::Parser;
use crate::parsers::Success;

verus! {

/// A transformation of parse results, with its specification-level meaning.
pub trait Trans<A: DeepView>: Sized {
    /// The type the transformation produces.
    type Out: DeepView;

    /// The meaning of the transformation.
    spec fn spec_trans(&self, x: A::V) -> <Self::Out as DeepView>::V;

    /// Apply the transformation.
    fn trans(&self, x: A) -> (r: Self::Out)
        ensures
            r.deep_view() == self.spec_trans(x.deep_view()),
    ;
}

/// A transformation that may reject its argument.
pub trait TransOpt<A: DeepView>: Sized {
    /// The type the transformation produces when it accepts.
    type Out: DeepView;

    /// The meaning of the transformation; `None` rejects the value.
    spec fn spec_trans_opt(&self, x: A::V) -> Option<<Self::Out as DeepView>::V>;

    /// Apply the transformation.
    fn trans_opt(&self, x: A) -> (r: Option<Self::Out>)
        ensures
            (match r {
                Some(v) => self.spec_trans_opt(x.deep_view()) == Some(v.deep_view()),
                None => self.spec_trans_opt(x.deep_view()) is None,
            }),
    ;
}

/// A decidable predicate on parse results.
pub trait OutPred<A: DeepView>: Sized {
    /// The meaning of the predicate.
    spec fn spec_accept(&self, x: A::V) -> bool;

    /// Decide the predicate.
    fn accept(&self, x: &A) -> (r: bool)
        ensures
            r == self.spec_accept(x.deep_view()),
    ;
}

/// A function from a parse result to the next parser to run.
pub trait ParserGen<T, A: DeepView>: Sized {
    /// The type of parser generated.
    type P: Parser<T>;

    /// The meaning of the generation step.
    spec fn spec_gen(&self, x: A::V) -> Self::P;

    /// Produce the parser for the given result.
    fn gen(&self, x: A) -> (q: Self::P)
        ensures
            q == self.spec_gen(x.deep_view()),
    ;
}

/// The parser built by [`map`].
#[derive(Clone, Copy)]
pub struct Mapped<P, F> {
    /// The parser whose result is transformed.
    pub p: P,
    /// The transformation.
    pub f: F,
}

/// Create a new parser by applying a transformation `f` to the result of `p`.
pub fn map<P, F>(p: P, f: F) -> (r: Mapped<P, F>)
    ensures
        r == (Mapped { p, f }),
{
    Mapped { p, f }
}

impl<T, P: Parser<T>, F: Trans<P::Out>> Parser<T> for Mapped<P, F> {
    type Out = F::Out;

    open spec fn spec_run(&self, input: Seq<T>, pos: int) -> (
        int,
        Option<<F::Out as DeepView>::V>,
    ) {
        let (q, o) = self.p.spec_run(input, pos);
        match o {
            Some(v) => (q, Some(self.f.spec_trans(v))),
            None => (q, None),
        }
    }

    proof fn lemma_run_bounds(&self, input: Seq<T>, pos: int) {
        self.p.lemma_run_bounds(input, pos);
    }

    fn run(&self, input: &[T], pos: usize) -> (r: (usize, Option<F::Out>)) {
        let (q, o) = self.p.run(input, pos);
        match o {
            Some(v) => (q, Some(self.f.trans(v))),
            None => (q, None),
        }
    }
}

/// The parser built by [`map_if`].
#[derive(Clone, Copy)]
pub struct MapIf<P, F> {
    /// The parser whose result is transformed.
    pub p: P,
    /// The transformation; rejection fails the parse.
    pub f: F,
}

/// Create a new parser by applying a transformation `f` to the result of `p`;
/// the transformation may reject the parse by returning nothing.
pub fn map_if<P, F>(p: P, f: F) -> (r: MapIf<P, F>)
    ensures
        r == (MapIf { p, f }),
{
    MapIf { p, f }
}

impl<T, P: Parser<T>, F: TransOpt<P::Out>> Parser<T> for MapIf<P, F> {
    type Out = F::Out;

    open spec fn spec_run(&self, input: Seq<T>, pos: int) -> (
        int,
        Option<<F::Out as DeepView>::V>,
    ) {
        let (q, o) = self.p.spec_run(input, pos);
        match o {
            Some(v) => (q, self.f.spec_trans_opt(v)),
            None => (q, None),
        }
    }

    proof fn lemma_run_bounds(&self, input: Seq<T>, pos: int) {
        self.p.lemma_run_bounds(input, pos);
    }

    fn run(&self, input: &[T], pos: usize) -> (r: (usize, Option<F::Out>)) {
        let (q, o) = self.p.run(input, pos);
        match o {
            Some(v) => (q, self.f.trans_opt(v)),
            None => (q, None),
        }
    }
}

/// The parser built by [`filter`].
#[derive(Clone, Copy)]
pub struct Filtered<P, F> {
    /// The parser whose result is tested.
    pub p: P,
    /// The predicate; a rejected result fails the parse.
    pub f: F,
}

/// Accept or reject the parse based on the predicate `f`.
pub fn filter<P, F>(p: P, f: F) -> (r: Filtered<P, F>)
    ensures
        r == (Filtered { p, f }),
{
    Filtered { p, f }
}

impl<T, P: Parser<T>, F: OutPred<P::Out>> Parser<T> for Filtered<P, F> {
    type Out = P::Out;

    open spec fn spec_run(&self, input: Seq<T>, pos: int) -> (
        int,
        Option<<P::Out as DeepView>::V>,
    ) {
        let (q, o) = self.p.spec_run(input, pos);
        match o {
            Some(v) => (q, if self.f.spec_accept(v) {
                Some(v)
            } else {
                None
            }),
            None => (q, None),
        }
    }

    proof fn lemma_run_bounds(&self, input: Seq<T>, pos: int) {
        self.p.lemma_run_bounds(input, pos);
    }

    fn run(&self, input: &[T], pos: usize) -> (r: (usize, Option<P::Out>)) {
        let (q, o) = self.p.run(input, pos);
        match o {
            Some(v) => if self.f.accept(&v) {
                (q, Some(v))
            } else {
                (q, None)
            },
            None => (q, None),
        }
    }
}

/// The predicate that accepts non-empty sequence results.
#[derive(Clone, Copy)]
pub struct NonEmptySeq;

impl<U: DeepView> OutPred<Vec<U>> for NonEmptySeq {
    open spec fn spec_accept(&self, x: Seq<U::V>) -> bool {
        x.len() > 0
    }

    fn accept(&self, x: &Vec<U>) -> (r: bool) {
        x.len() > 0
    }
}

/// Transform a parser to a parser that only succeeds if the parsed sequence
/// is not empty.
pub fn not_empty<P>(p: P) -> (r: Filtered<P, NonEmptySeq>)
    ensures
        r == (Filtered { p, f: NonEmptySeq }),
{
    Filtered { p, f: NonEmptySeq }
}

/// The parser built by [`bind`].
#[derive(Clone, Copy)]
pub struct BoundP<P, F> {
    /// The parser whose result picks the continuation.
    pub p: P,
    /// The continuation: it turns the result into the next parser.
    pub f: F,
}

/// Create a new parser by taking the result of `p` and applying `f` to
/// produce the parser that continues the parse.
pub fn bind<P, F>(p: P, f: F) -> (r: BoundP<P, F>)
    ensures
        r == (BoundP { p, f }),
{
    BoundP { p, f }
}

impl<T, P: Parser<T>, F: ParserGen<T, P::Out>> Parser<T> for BoundP<P, F> {
    type Out = <F::P as Parser<T>>::Out;

    open spec fn spec_run(&self, input: Seq<T>, pos: int) -> (
        int,
        Option<<<F::P as Parser<T>>::Out as DeepView>::V>,
    ) {
        let (q, o) = self.p.spec_run(input, pos);
        match o {
            Some(v) => self.f.spec_gen(v).spec_run(input, q),
            None => (q, None),
        }
    }

    proof fn lemma_run_bounds(&self, input: Seq<T>, pos: int) {
        self.p.lemma_run_bounds(input, pos);
        let (q, o) = self.p.spec_run(input, pos);
        if o is Some {
            let next = self.f.spec_gen(o->0);
            next.lemma_run_bounds(input, q);
        }
    }

    fn run(&self, input: &[T], pos: usize) -> (r: (usize, Option<Self::Out>)) {
        proof {
            self.p.lemma_run_bounds(input@, pos as int);
        }
        let (q, o) = self.p.run(input, pos);
        match o {
            Some(v) => self.f.gen(v).run(input, q),
            None => (q, None),
        }
    }
}

/// A continuation for [`bind`] that turns a parsed count into a parser
/// repeating a single arbitrary item that many times.
#[derive(Clone, Copy)]
pub struct RepeatCount;

impl<T: PlainItem> ParserGen<T, u32> for RepeatCount {
    type P = Times<crate::parsers::ItemIf<crate::parsers::AnyItem>>;

    open spec fn spec_gen(&self, x: u32) -> Self::P {
        Times { n: x, p: crate::parsers::ItemIf { pred: crate::parsers::AnyItem } }
    }

    fn gen(&self, x: u32) -> (q: Self::P) {
        Times { n: x, p: crate::parsers::ItemIf { pred: crate::parsers::AnyItem } }
    }
}

/// The parser built by [`right`]: both parts must succeed, the left result
/// is dropped.
#[derive(Clone, Copy)]
pub struct RightP<P, Q> {
    /// The parser whose result is dropped.
    pub p1: P,
    /// The parser whose result is kept.
    pub p2: Q,
}

/// Combine one parser with another, keeping the second result.
/// The second parser is only attempted if the first succeeds.
pub fn right<P, Q>(p1: P, p2: Q) -> (r: RightP<P, Q>)
    ensures
        r == (RightP { p1, p2 }),
{
    RightP { p1, p2 }
}

impl<T, P: Parser<T>, Q: Parser<T>> Parser<T> for RightP<P, Q> {
    type Out = Q::Out;

    open spec fn spec_run(&self, input: Seq<T>, pos: int) -> (
        int,
        Option<<Q::Out as DeepView>::V>,
    ) {
        let (q, o) = self.p1.spec_run(input, pos);
        match o {
            Some(_) => self.p2.spec_run(input, q),
            None => (q, None),
        }
    }

    proof fn lemma_run_bounds(&self, input: Seq<T>, pos: int) {
        self.p1.lemma_run_bounds(input, pos);
        let (q, o) = self.p1.spec_run(input, pos);
        if o is Some {
            self.p2.lemma_run_bounds(input, q);
        }
    }

    fn run(&self, input: &[T], pos: usize) -> (r: (usize, Option<Q::Out>)) {
        proof {
            self.p1.lemma_run_bounds(input@, pos as int);
        }
        let (q, o) = self.p1.run(input, pos);
        match o {
            Some(_) => self.p2.run(input, q),
            None => (q, None),
        }
    }
}

/// The parser built by [`left`]: both parts must succeed, the right result
/// is dropped.
#[derive(Clone, Copy)]
pub struct LeftP<P, Q> {
    /// The parser whose result is kept.
    pub p1: P,
    /// The parser whose result is dropped.
    pub p2: Q,
}

/// Combine one parser with another, keeping the first result.
/// The second parser is only attempted if the first succeeds.
pub fn left<P, Q>(p1: P, p2: Q) -> (r: LeftP<P, Q>)
    ensures
        r == (LeftP { p1, p2 }),
{
    LeftP { p1, p2 }
}

impl<T, P: Parser<T>, Q: Parser<T>> Parser<T> for LeftP<P, Q> {
    type Out = P::Out;

    open spec fn spec_run(&self, input: Seq<T>, pos: int) -> (
        int,
        Option<<P::Out as DeepView>::V>,
    ) {
        let (q, o) = self.p1.spec_run(input, pos);
        match o {
            Some(v) => {
                let (q2, o2) = self.p2.spec_run(input, q);
                match o2 {
                    Some(_) => (q2, Some(v)),
                    None => (q2, None),
                }
            },
            None => (q, None),
        }
    }

    proof fn lemma_run_bounds(&self, input: Seq<T>, pos: int) {
        self.p1.lemma_run_bounds(input, pos);
        let (q, o) = self.p1.spec_run(input, pos);
        if o is Some {
            self.p2.lemma_run_bounds(input, q);
        }
    }

    fn run(&self, input: &[T], pos: usize) -> (r: (usize, Option<P::Out>)) {
        proof {
            self.p1.lemma_run_bounds(input@, pos as int);
        }
        let (q, o) = self.p1.run(input, pos);
        match o {
            Some(v) => {
                let (q2, o2) = self.p2.run(input, q);
                match o2 {
                    Some(_) => (q2, Some(v)),
                    None => (q2, None),
                }
            },
            None => (q, None),
        }
    }
}

/// Combine three parsers, keeping the result of the middle one.
pub fn middle<P1, P2, P3>(p1: P1, p2: P2, p3: P3) -> (r: RightP<P1, LeftP<P2, P3>>)
    ensures
        r == (RightP { p1, p2: LeftP { p1: p2, p2: p3 } }),
{
    RightP { p1, p2: LeftP { p1: p2, p2: p3 } }
}

/// The parser built by [`pair`]: both parts must succeed, and the results
/// are kept as a pair.
#[derive(Clone, Copy)]
pub struct PairP<P, Q> {
    /// The first parser.
    pub p1: P,
    /// The second parser.
    pub p2: Q,
}

/// Combine two parsers into one producing both results as a pair.
pub fn pair<P, Q>(p1: P, p2: Q) -> (r: PairP<P, Q>)
    ensures
        r == (PairP { p1, p2 }),
{
    PairP { p1, p2 }
}

impl<T, P: Parser<T>, Q: Parser<T>> Parser<T> for PairP<P, Q> {
    type Out = (P::Out, Q::Out);

    open spec fn spec_run(&self, input: Seq<T>, pos: int) -> (
        int,
        Option<(<P::Out as DeepView>::V, <Q::Out as DeepView>::V)>,
    ) {
        let (q, o) = self.p1.spec_run(input, pos);
        match o {
            Some(v) => {
                let (q2, o2) = self.p2.spec_run(input, q);
                match o2 {
                    Some(v2) => (q2, Some((v, v2))),
                    None => (q2, None),
                }
            },
            None => (q, None),
        }
    }

    proof fn lemma_run_bounds(&self, input: Seq<T>, pos: int) {
        self.p1.lemma_run_bounds(input, pos);
        let (q, o) = self.p1.spec_run(input, pos);
        if o is Some {
            self.p2.lemma_run_bounds(input, q);
        }
    }

    fn run(&self, input: &[T], pos: usize) -> (r: (usize, Option<(P::Out, Q::Out)>)) {
        proof {
            self.p1.lemma_run_bounds(input@, pos as int);
        }
        let (q, o) = self.p1.run(input, pos);
        match o {
            Some(v) => {
                let (q2, o2) = self.p2.run(input, q);
                match o2 {
                    Some(v2) => (q2, Some((v, v2))),
                    None => (q2, None),
                }
            },
            None => (q, None),
        }
    }
}

/// The parser built by [`or`] and [`or_no_partial`].
#[derive(Clone, Copy)]
pub struct OrElse<P, Q> {
    /// The alternative tried first.
    pub p1: P,
    /// The alternative tried on failure of the first.
    pub p2: Q,
    /// Whether the second alternative is still tried when the first failed
    /// after consuming input.
    pub allow_partial: bool,
}

/// Create a parser that tries `p1`, and on failure backtracks to the start
/// and tries `p2`. Both parsers must have the same result type.
pub fn or<P, Q>(p1: P, p2: Q) -> (r: OrElse<P, Q>)
    ensures
        r == (OrElse { p1, p2, allow_partial: true }),
{
    OrElse { p1, p2, allow_partial: true }
}

/// Like [`or`], except that if `p1` failed after consuming any input, `p2`
/// is never attempted and the whole parser fails: a committed choice.
pub fn or_no_partial<P, Q>(p1: P, p2: Q) -> (r: OrElse<P, Q>)
    ensures
        r == (OrElse { p1, p2, allow_partial: false }),
{
    OrElse { p1, p2, allow_partial: false }
}

impl<T, P: Parser<T>, Q: Parser<T, Out = P::Out>> Parser<T> for OrElse<P, Q> {
    type Out = P::Out;

    open spec fn spec_run(&self, input: Seq<T>, pos: int) -> (
        int,
        Option<<P::Out as DeepView>::V>,
    ) {
        let (q, o) = self.p1.spec_run(input, pos);
        if o is Some {
            (q, o)
        } else if !self.allow_partial && q != pos {
            (q, None)
        } else {
            self.p2.spec_run(input, pos)
        }
    }

    proof fn lemma_run_bounds(&self, input: Seq<T>, pos: int) {
        self.p1.lemma_run_bounds(input, pos);
        self.p2.lemma_run_bounds(input, pos);
    }

    fn run(&self, input: &[T], pos: usize) -> (r: (usize, Option<P::Out>)) {
        let (q, o) = self.p1.run(input, pos);
        if o.is_some() {
            (q, o)
        } else if !self.allow_partial && q != pos {
            (q, None)
        } else {
            self.p2.run(input, pos)
        }
    }
}

/// The parser built by [`or_diff`] and [`or_diff_no_partial`].
#[derive(Clone, Copy)]
pub struct OrDiff<P, Q> {
    /// The alternative tried first.
    pub p1: P,
    /// The alternative tried on failure of the first.
    pub p2: Q,
    /// Whether the second alternative is still tried when the first failed
    /// after consuming input.
    pub allow_partial: bool,
}

/// Like [`or`], but the two alternatives may produce different result types;
/// the combined result is `()`.
pub fn or_diff<P, Q>(p1: P, p2: Q) -> (r: OrDiff<P, Q>)
    ensures
        r == (OrDiff { p1, p2, allow_partial: true }),
{
    OrDiff { p1, p2, allow_partial: true }
}

/// Like [`or_diff`], except that if `p1` failed after consuming any input,
/// `p2` is never attempted and the whole parser fails.
pub fn or_diff_no_partial<P, Q>(p1: P, p2: Q) -> (r: OrDiff<P, Q>)
    ensures
        r == (OrDiff { p1, p2, allow_partial: false }),
{
    OrDiff { p1, p2, allow_partial: false }
}

impl<T, P: Parser<T>, Q: Parser<T>> Parser<T> for OrDiff<P, Q> {
    type Out = ();

    open spec fn spec_run(&self, input: Seq<T>, pos: int) -> (int, Option<()>) {
        let (q, o) = self.p1.spec_run(input, pos);
        if o is Some {
            (q, Some(()))
        } else if !self.allow_partial && q != pos {
            (q, None)
        } else {
            let (q2, o2) = self.p2.spec_run(input, pos);
            match o2 {
                Some(_) => (q2, Some(())),
                None => (q2, None),
            }
        }
    }

    proof fn lemma_run_bounds(&self, input: Seq<T>, pos: int) {
        self.p1.lemma_run_bounds(input, pos);
        self.p2.lemma_run_bounds(input, pos);
    }

    fn run(&self, input: &[T], pos: usize) -> (r: (usize, Option<()>)) {
        let (q, o) = self.p1.run(input, pos);
        match o {
            Some(_) => (q, Some(())),
            None => {
                if !self.allow_partial && q != pos {
                    (q, None)
                } else {
                    let (q2, o2) = self.p2.run(input, pos);
                    match o2 {
                        Some(_) => (q2, Some(())),
                        None => (q2, None),
                    }
                }
            },
        }
    }
}

/// The parser built by [`attempt`].
#[derive(Clone, Copy)]
pub struct Attempt<P> {
    /// The wrapped parser.
    pub p: P,
}

/// Transform a parser to a parser that does not consume any input on
/// failure.
pub fn attempt<P>(p: P) -> (r: Attempt<P>)
    ensures
        r == (Attempt { p }),
{
    Attempt { p }
}

impl<T, P: Parser<T>> Parser<T> for Attempt<P> {
    type Out = P::Out;

    open spec fn spec_run(&self, input: Seq<T>, pos: int) -> (
        int,
        Option<<P::Out as DeepView>::V>,
    ) {
        let (q, o) = self.p.spec_run(input, pos);
        if o is Some {
            (q, o)
        } else {
            (pos, None)
        }
    }

    proof fn lemma_run_bounds(&self, input: Seq<T>, pos: int) {
        self.p.lemma_run_bounds(input, pos);
    }

    fn run(&self, input: &[T], pos: usize) -> (r: (usize, Option<P::Out>)) {
        let (q, o) = self.p.run(input, pos);
        if o.is_some() {
            (q, o)
        } else {
            (pos, None)
        }
    }
}

/// The parser built by [`peek`].
#[derive(Clone, Copy)]
pub struct Peek<P> {
    /// The wrapped parser.
    pub p: P,
}

/// Transform a parser to a parser that does not consume any input, keeping
/// only the result.
pub fn peek<P>(p: P) -> (r: Peek<P>)
    ensures
        r == (Peek { p }),
{
    Peek { p }
}

impl<T, P: Parser<T>> Parser<T> for Peek<P> {
    type Out = P::Out;

    open spec fn spec_run(&self, input: Seq<T>, pos: int) -> (
        int,
        Option<<P::Out as DeepView>::V>,
    ) {
        let (_, o) = self.p.spec_run(input, pos);
        (pos, o)
    }

    proof fn lemma_run_bounds(&self, input: Seq<T>, pos: int) {
    }

    fn run(&self, input: &[T], pos: usize) -> (r: (usize, Option<P::Out>)) {
        let (_, o) = self.p.run(input, pos);
        (pos, o)
    }
}

/// The parser built by [`succeed`].
#[derive(Clone, Copy)]
pub struct Succeed<P> {
    /// The wrapped parser.
    pub p: P,
}

/// Transform a parser to a parser that always succeeds, yielding the wrapped
/// result when there is one.
pub fn succeed<P>(p: P) -> (r: Succeed<P>)
    ensures
        r == (Succeed { p }),
{
    Succeed { p }
}

impl<T, P: Parser<T>> Parser<T> for Succeed<P> {
    type Out = Option<P::Out>;

    open spec fn spec_run(&self, input: Seq<T>, pos: int) -> (
        int,
        Option<Option<<P::Out as DeepView>::V>>,
    ) {
        let (q, o) = self.p.spec_run(input, pos);
        (q, Some(o))
    }

    proof fn lemma_run_bounds(&self, input: Seq<T>, pos: int) {
        self.p.lemma_run_bounds(input, pos);
    }

    fn run(&self, input: &[T], pos: usize) -> (r: (usize, Option<Option<P::Out>>)) {
        let (q, o) = self.p.run(input, pos);
        (q, Some(o))
    }
}

/// The parser built by [`count_consumed`].
#[derive(Clone, Copy)]
pub struct CountConsumed<P> {
    /// The wrapped parser.
    pub p: P,
}

/// Transform a parser to a parser that also returns how many items were
/// consumed.
pub fn count_consumed<P>(p: P) -> (r: CountConsumed<P>)
    ensures
        r == (CountConsumed { p }),
{
    CountConsumed { p }
}

impl<T, P: Parser<T>> Parser<T> for CountConsumed<P> {
    type Out = (usize, P::Out);

    open spec fn spec_run(&self, input: Seq<T>, pos: int) -> (
        int,
        Option<(usize, <P::Out as DeepView>::V)>,
    ) {
        let (q, o) = self.p.spec_run(input, pos);
        match o {
            Some(v) => (q, Some(((q - pos) as usize, v))),
            None => (q, None),
        }
    }

    proof fn lemma_run_bounds(&self, input: Seq<T>, pos: int) {
        self.p.lemma_run_bounds(input, pos);
    }

    fn run(&self, input: &[T], pos: usize) -> (r: (usize, Option<(usize, P::Out)>)) {
        proof {
            self.p.lemma_run_bounds(input@, pos as int);
        }
        let (q, o) = self.p.run(input, pos);
        match o {
            Some(v) => (q, Some((q - pos, v))),
            None => (q, None),
        }
    }
}

/// The parser built by [`and_parsed`].
#[derive(Clone, Copy)]
pub struct AndParsed<P> {
    /// The wrapped parser.
    pub p: P,
}

/// Transform a parser to a parser that also returns the input span it
/// consumed.
pub fn and_parsed<P>(p: P) -> (r: AndParsed<P>)
    ensures
        r == (AndParsed { p }),
{
    AndParsed { p }
}

impl<T: PlainItem, P: Parser<T>> Parser<T> for AndParsed<P> {
    type Out = (Vec<T>, P::Out);

    open spec fn spec_run(&self, input: Seq<T>, pos: int) -> (
        int,
        Option<(Seq<T>, <P::Out as DeepView>::V)>,
    ) {
        let (q, o) = self.p.spec_run(input, pos);
        match o {
            Some(v) => (q, Some((input.subrange(pos, q), v))),
            None => (q, None),
        }
    }

    proof fn lemma_run_bounds(&self, input: Seq<T>, pos: int) {
        self.p.lemma_run_bounds(input, pos);
    }

    fn run(&self, input: &[T], pos: usize) -> (r: (usize, Option<(Vec<T>, P::Out)>)) {
        proof {
            self.p.lemma_run_bounds(input@, pos as int);
        }
        let (q, o) = self.p.run(input, pos);
        match o {
            Some(v) => {
                let span = slice_to_vec(slice_subrange(input, pos, q));
                proof {
                    lemma_vec_deep_view_id(&span);
                }
                (q, Some((span, v)))
            },
            None => (q, None),
        }
    }
}

/// The parser built by [`get_parsed`].
#[derive(Clone, Copy)]
pub struct GetParsed<P> {
    /// The wrapped parser.
    pub p: P,
}

/// Transform a parser to a parser that drops its result and instead returns
/// the input span it consumed.
pub fn get_parsed<P>(p: P) -> (r: GetParsed<P>)
    ensures
        r == (GetParsed { p }),
{
    GetParsed { p }
}

impl<T: PlainItem, P: Parser<T>> Parser<T> for GetParsed<P> {
    type Out = Vec<T>;

    open spec fn spec_run(&self, input: Seq<T>, pos: int) -> (int, Option<Seq<T>>) {
        let (q, o) = self.p.spec_run(input, pos);
        match o {
            Some(_) => (q, Some(input.subrange(pos, q))),
            None => (q, None),
        }
    }

    proof fn lemma_run_bounds(&self, input: Seq<T>, pos: int) {
        self.p.lemma_run_bounds(input, pos);
    }

    fn run(&self, input: &[T], pos: usize) -> (r: (usize, Option<Vec<T>>)) {
        proof {
            self.p.lemma_run_bounds(input@, pos as int);
        }
        let (q, o) = self.p.run(input, pos);
        match o {
            Some(_) => {
                let span = slice_to_vec(slice_subrange(input, pos, q));
                proof {
                    lemma_vec_deep_view_id(&span);
                }
                (q, Some(span))
            },
            None => (q, None),
        }
    }
}

/// What repeating a parser exactly `n` more times from `pos` yields: the
/// final position and whether every repetition succeeded. A failed
/// repetition leaves the position where it failed.
pub open spec fn spec_times_from<T, P: Parser<T>>(p: &P, input: Seq<T>, pos: int, n: nat) -> (
    int,
    bool,
)
    decreases n,
{
    if n == 0 {
        (pos, true)
    } else {
        let (q, o) = p.spec_run(input, pos);
        if o is Some {
            spec_times_from(p, input, q, (n - 1) as nat)
        } else {
            (q, false)
        }
    }
}

/// The position after the repetitions stays inside the input.
pub proof fn lemma_times_from_bounds<T, P: Parser<T>>(p: &P, input: Seq<T>, pos: int, n: nat)
    requires
        0 <= pos <= input.len(),
    ensures
        pos <= spec_times_from(p, input, pos, n).0 <= input.len(),
    decreases n,
{
    if n > 0 {
        p.lemma_run_bounds(input, pos);
        let (q, o) = p.spec_run(input, pos);
        if o is Some {
            lemma_times_from_bounds(p, input, q, (n - 1) as nat);
        }
    }
}

/// The parser built by [`times`].
#[derive(Clone, Copy)]
pub struct Times<P> {
    /// How many times the parser must succeed.
    pub n: u32,
    /// The repeated parser.
    pub p: P,
}

/// Transform a parser to a parser that only succeeds if it can be applied
/// `n` times in a row; the whole consumed span is the result.
pub fn times<P>(n: u32, p: P) -> (r: Times<P>)
    ensures
        r == (Times { n, p }),
{
    Times { n, p }
}

impl<T: PlainItem, P: Parser<T>> Parser<T> for Times<P> {
    type Out = Vec<T>;

    open spec fn spec_run(&self, input: Seq<T>, pos: int) -> (int, Option<Seq<T>>) {
        let (q, ok) = spec_times_from(&self.p, input, pos, self.n as nat);
        if ok {
            (q, Some(input.subrange(pos, q)))
        } else {
            (q, None)
        }
    }

    proof fn lemma_run_bounds(&self, input: Seq<T>, pos: int) {
        lemma_times_from_bounds(&self.p, input, pos, self.n as nat);
    }

    fn run(&self, input: &[T], pos: usize) -> (r: (usize, Option<Vec<T>>)) {
        let mut i: u32 = 0;
        let mut cur: usize = pos;
        while i < self.n
            invariant
                pos <= cur <= input@.len(),
                0 <= i <= self.n,
                spec_times_from(&self.p, input@, pos as int, self.n as nat) == spec_times_from(
                    &self.p,
                    input@,
                    cur as int,
                    (self.n - i) as nat,
                ),
            decreases self.n - i,
        {
            proof {
                self.p.lemma_run_bounds(input@, cur as int);
            }
            let (q, o) = self.p.run(input, cur);
            if o.is_none() {
                return (q, None);
            }
            cur = q;
            i = i + 1;
        }
        let span = slice_to_vec(slice_subrange(input, pos, cur));
        proof {
            lemma_vec_deep_view_id(&span);
        }
        (cur, Some(span))
    }
}

/// Only for use with the `many` family of combinators: a separator parser
/// together with whether a trailing separator is allowed.
pub fn separator<Q>(p: Q, allow_trailing: bool) -> (r: Option<(bool, Q)>)
    ensures
        r == Some((allow_trailing, p)),
{
    Some((allow_trailing, p))
}

/// Only for use with the `many` family of combinators: no separator between
/// elements.
pub fn no_separator() -> (r: Option<(bool, Success)>)
    ensures
        r is None,
{
    None
}

/// One run of the repetition engine from `pos`: the final position, the list
/// of element results, and whether the loop stopped right after a consumed
/// separator whose element never came.
///
/// Each round runs the element parser; on failure the loop stops where the
/// element failed. After a success the separator, if one is configured, is
/// run: if it fails the loop stops at the separator's failure position, and
/// if it succeeds the next round starts after it. A round that does not
/// advance the cursor ends the loop, so that repetition is total.
pub open spec fn spec_many_rec<T, P: Parser<T>, Q: Parser<T>>(
    p: &P,
    sep: Option<(bool, Q)>,
    input: Seq<T>,
    pos: int,
    after_sep: bool,
) -> (int, Seq<<P::Out as DeepView>::V>, bool)
    decreases input.len() - pos when 0 <= pos <= input.len()
{
    let (q, o) = p.spec_run(input, pos);
    match o {
        None => (q, Seq::empty(), after_sep),
        Some(v) => match sep {
            None => {
                if pos < q <= input.len() {
                    let r = spec_many_rec(p, sep, input, q, false);
                    (r.0, seq![v] + r.1, r.2)
                } else {
                    (q, seq![v], false)
                }
            },
            Some((allow_trailing, sp)) => {
                let (sq, so) = sp.spec_run(input, q);
                if so is None {
                    (sq, seq![v], false)
                } else if pos < sq <= input.len() {
                    let r = spec_many_rec(p, sep, input, sq, true);
                    (r.0, seq![v] + r.1, r.2)
                } else {
                    (sq, seq![v], true)
                }
            },
        },
    }
}

/// The repetition engine stays inside the input.
pub proof fn lemma_many_rec_bounds<T, P: Parser<T>, Q: Parser<T>>(
    p: &P,
    sep: Option<(bool, Q)>,
    input: Seq<T>,
    pos: int,
    after_sep: bool,
)
    requires
        0 <= pos <= input.len(),
    ensures
        pos <= spec_many_rec(p, sep, input, pos, after_sep).0 <= input.len(),
    decreases input.len() - pos,
{
    p.lemma_run_bounds(input, pos);
    let (q, o) = p.spec_run(input, pos);
    if o is Some {
        match sep {
            None => {
                if pos < q <= input.len() {
                    lemma_many_rec_bounds(p, sep, input, q, false);
                }
            },
            Some((allow_trailing, sp)) => {
                sp.lemma_run_bounds(input, q);
                let (sq, so) = sp.spec_run(input, q);
                if so is Some && pos < sq <= input.len() {
                    lemma_many_rec_bounds(p, sep, input, sq, true);
                }
            },
        }
    }
}

/// Whether a finished repetition counts as a success: a trailing separator
/// must be allowed if one was consumed, and an empty repetition must be
/// allowed if nothing was parsed.
pub open spec fn spec_many_ok<Q>(
    sep: Option<(bool, Q)>,
    allow_empty: bool,
    n_items: int,
    trailing: bool,
) -> bool {
    (match sep {
        Some((allow_trailing, _)) => allow_trailing || !trailing,
        None => true,
    }) && (allow_empty || n_items > 0)
}

/// The shared repetition loop: runs the element parser, interleaved with the
/// separator if one is given, until a round fails or stops advancing.
/// Returns the final position, the element results, and whether the loop
/// stopped right after a consumed separator.
fn run_many_core<T, P: Parser<T>, Q: Parser<T>>(
    p: &P,
    sep: &Option<(bool, Q)>,
    input: &[T],
    pos: usize,
) -> (r: (usize, Vec<P::Out>, bool))
    requires
        pos <= input.len(),
    ensures
        ({
            let (fq, items, trailing) = spec_many_rec(p, *sep, input@, pos as int, false);
            &&& r.0 as int == fq
            &&& r.1.deep_view() == items
            &&& r.2 == trailing
        }),
        pos <= r.0 <= input.len(),
{
    let ilen = input.len();
    let mut cur: usize = pos;
    let mut out: Vec<P::Out> = Vec::new();
    let mut after: bool = false;
    proof {
        crate::engine::lemma_deep_view_empty(&out);
    }
    loop
        invariant
            pos <= cur <= ilen == input@.len(),
            ({
                let full = spec_many_rec(p, *sep, input@, pos as int, false);
                let rest = spec_many_rec(p, *sep, input@, cur as int, after);
                &&& full.0 == rest.0
                &&& full.1 == out.deep_view() + rest.1
                &&& full.2 == rest.2
            }),
        decreases ilen - cur,
    {
        proof {
            p.lemma_run_bounds(input@, cur as int);
        }
        let ghost rest = spec_many_rec(p, *sep, input@, cur as int, after);
        let (q, o) = p.run(input, cur);
        match o {
            None => {
                proof {
                    assert(out.deep_view() + rest.1 =~= out.deep_view());
                }
                return (q, out, after);
            },
            Some(v) => {
                let ghost vd = v.deep_view();
                let ghost old_out = out;
                out.push(v);
                proof {
                    crate::engine::lemma_deep_view_push(&old_out, &out, v);
                    assert(old_out.deep_view() + seq![vd] =~= out.deep_view());
                }
                match sep {
                    None => {
                        if q > cur {
                            proof {
                                let r2 = spec_many_rec(p, *sep, input@, q as int, false);
                                assert(old_out.deep_view() + (seq![vd] + r2.1) =~= out.deep_view()
                                    + r2.1);
                            }
                            after = false;
                            cur = q;
                        } else {
                            return (q, out, false);
                        }
                    },
                    Some((allow_trailing, sp)) => {
                        proof {
                            sp.lemma_run_bounds(input@, q as int);
                        }
                        let (sq, so) = sp.run(input, q);
                        match so {
                            None => {
                                return (sq, out, false);
                            },
                            Some(_) => {
                                if sq > cur {
                                    proof {
                                        let r2 = spec_many_rec(p, *sep, input@, sq as int, true);
                                        assert(old_out.deep_view() + (seq![vd] + r2.1)
                                            =~= out.deep_view() + r2.1);
                                    }
                                    after = true;
                                    cur = sq;
                                } else {
                                    return (sq, out, true);
                                }
                            },
                        }
                    },
                }
            },
        }
    }
}

/// The parser built by [`many`]: repetition yielding the whole consumed span.
#[derive(Clone, Copy)]
pub struct Many<P, Q> {
    /// The element parser.
    pub p: P,
    /// Whether an empty repetition is a success.
    pub allow_empty: bool,
    /// The separator configuration: none, or a separator parser together
    /// with whether a trailing separator is allowed.
    pub separator: Option<(bool, Q)>,
}

/// Apply a parser until it fails and return the consumed span.
/// Use [`separator`] or [`no_separator`] to build the last argument.
pub fn many<P, Q>(p: P, allow_empty: bool, separator: Option<(bool, Q)>) -> (r: Many<P, Q>)
    ensures
        r == (Many { p, allow_empty, separator }),
{
    Many { p, allow_empty, separator }
}

impl<T: PlainItem, P: Parser<T>, Q: Parser<T>> Parser<T> for Many<P, Q> {
    type Out = Vec<T>;

    open spec fn spec_run(&self, input: Seq<T>, pos: int) -> (int, Option<Seq<T>>) {
        let (fq, items, trailing) = spec_many_rec(&self.p, self.separator, input, pos, false);
        if spec_many_ok(self.separator, self.allow_empty, items.len() as int, trailing) {
            (fq, Some(input.subrange(pos, fq)))
        } else {
            (fq, None)
        }
    }

    proof fn lemma_run_bounds(&self, input: Seq<T>, pos: int) {
        lemma_many_rec_bounds(&self.p, self.separator, input, pos, false);
    }

    fn run(&self, input: &[T], pos: usize) -> (r: (usize, Option<Vec<T>>)) {
        let (fq, items, trailing) = run_many_core(&self.p, &self.separator, input, pos);
        let ok = (match &self.separator {
            Some((allow_trailing, _)) => *allow_trailing || !trailing,
            None => true,
        }) && (self.allow_empty || items.len() > 0);
        if ok {
            let span = slice_to_vec(slice_subrange(input, pos, fq));
            proof {
                lemma_vec_deep_view_id(&span);
            }
            (fq, Some(span))
        } else {
            (fq, None)
        }
    }
}

/// The parser built by [`many_to_vec`]: repetition collecting the results.
#[derive(Clone, Copy)]
pub struct ManyVec<P, Q> {
    /// The element parser.
    pub p: P,
    /// Whether an empty repetition is a success.
    pub allow_empty: bool,
    /// The separator configuration.
    pub separator: Option<(bool, Q)>,
}

/// Apply a parser until it fails and collect the results in a vector.
/// Use [`separator`] or [`no_separator`] to build the last argument.
pub fn many_to_vec<P, Q>(p: P, allow_empty: bool, separator: Option<(bool, Q)>) -> (r: ManyVec<
    P,
    Q,
>)
    ensures
        r == (ManyVec { p, allow_empty, separator }),
{
    ManyVec { p, allow_empty, separator }
}

impl<T, P: Parser<T>, Q: Parser<T>> Parser<T> for ManyVec<P, Q> {
    type Out = Vec<P::Out>;

    open spec fn spec_run(&self, input: Seq<T>, pos: int) -> (
        int,
        Option<Seq<<P::Out as DeepView>::V>>,
    ) {
        let (fq, items, trailing) = spec_many_rec(&self.p, self.separator, input, pos, false);
        if spec_many_ok(self.separator, self.allow_empty, items.len() as int, trailing) {
            (fq, Some(items))
        } else {
            (fq, None)
        }
    }

    proof fn lemma_run_bounds(&self, input: Seq<T>, pos: int) {
        lemma_many_rec_bounds(&self.p, self.separator, input, pos, false);
    }

    fn run(&self, input: &[T], pos: usize) -> (r: (usize, Option<Vec<P::Out>>)) {
        let (fq, items, trailing) = run_many_core(&self.p, &self.separator, input, pos);
        let ok = (match &self.separator {
            Some((allow_trailing, _)) => *allow_trailing || !trailing,
            None => true,
        }) && (self.allow_empty || items.len() > 0);
        if ok {
            (fq, Some(items))
        } else {
            (fq, None)
        }
    }
}

/// An accumulation step with a specification-level meaning, used by [`fold`].
pub trait Accum<A: DeepView>: Sized {
    /// The accumulator type.
    type Acc: DeepView;

    /// The meaning of the initial accumulator.
    spec fn spec_init(&self) -> <Self::Acc as DeepView>::V;

    /// The meaning of one accumulation step.
    spec fn spec_step(
        &self,
        acc: <Self::Acc as DeepView>::V,
        x: A::V,
    ) -> <Self::Acc as DeepView>::V;

    /// Produce the initial accumulator.
    fn init(&self) -> (r: Self::Acc)
        ensures
            r.deep_view() == self.spec_init(),
    ;

    /// Fold one element into the accumulator.
    fn step(&self, acc: Self::Acc, x: &A) -> (r: Self::Acc)
        ensures
            r.deep_view() == self.spec_step(acc.deep_view(), x.deep_view()),
    ;
}

/// Folding a list of element results from the left.
pub open spec fn spec_fold_items<A: DeepView, F: Accum<A>>(
    f: &F,
    acc: <F::Acc as DeepView>::V,
    items: Seq<A::V>,
) -> <F::Acc as DeepView>::V
    decreases items.len(),
{
    if items.len() == 0 {
        acc
    } else {
        spec_fold_items(f, f.spec_step(acc, items[0]), items.drop_first())
    }
}

/// Folding from the left takes the last element last.
pub proof fn lemma_fold_items_snoc<A: DeepView, F: Accum<A>>(
    f: &F,
    acc: <F::Acc as DeepView>::V,
    items: Seq<A::V>,
    x: A::V,
)
    ensures
        spec_fold_items(f, acc, items.push(x)) == f.spec_step(spec_fold_items(f, acc, items), x),
    decreases items.len(),
{
    if items.len() == 0 {
        assert(items.push(x)[0] == x);
        assert(items.push(x).drop_first() =~= Seq::<A::V>::empty());
        assert(spec_fold_items(f, acc, items.push(x)) == spec_fold_items(
            f,
            f.spec_step(acc, x),
            Seq::<A::V>::empty(),
        ));
        assert(spec_fold_items(f, f.spec_step(acc, x), Seq::<A::V>::empty()) == f.spec_step(
            acc,
            x,
        ));
        assert(spec_fold_items(f, acc, items) == acc);
    } else {
        assert(items.push(x)[0] == items[0]);
        assert(items.push(x).drop_first() =~= items.drop_first().push(x));
        lemma_fold_items_snoc(f, f.spec_step(acc, items[0]), items.drop_first(), x);
        assert(spec_fold_items(f, acc, items.push(x)) == spec_fold_items(
            f,
            f.spec_step(acc, items[0]),
            items.drop_first().push(x),
        ));
        assert(spec_fold_items(f, acc, items) == spec_fold_items(
            f,
            f.spec_step(acc, items[0]),
            items.drop_first(),
        ));
    }
}

/// A ready-made accumulation for [`fold`]: summing parsed `u32` values,
/// wrapping around on overflow.
#[derive(Clone, Copy)]
pub struct SumU32;

impl Accum<u32> for SumU32 {
    type Acc = u32;

    open spec fn spec_init(&self) -> u32 {
        0
    }

    open spec fn spec_step(&self, acc: u32, x: u32) -> u32 {
        vstd::wrapping::u32_specs::wrapping_add(acc, x)
    }

    fn init(&self) -> (r: u32) {
        0
    }

    fn step(&self, acc: u32, x: &u32) -> (r: u32) {
        acc.wrapping_add(*x)
    }
}

/// The parser built by [`fold`]: repetition folded into an accumulator.
#[derive(Clone, Copy)]
pub struct ManyFold<P, Q, F> {
    /// The element parser.
    pub p: P,
    /// The accumulation to perform.
    pub f: F,
    /// Whether an empty repetition is a success.
    pub allow_empty: bool,
    /// The separator configuration.
    pub separator: Option<(bool, Q)>,
}

/// Apply a parser repeatedly and accumulate the results in the spirit of a
/// left fold. Use [`separator`] or [`no_separator`] to build the last
/// argument.
pub fn fold<P, Q, F>(p: P, f: F, allow_empty: bool, separator: Option<(bool, Q)>) -> (r: ManyFold<
    P,
    Q,
    F,
>)
    ensures
        r == (ManyFold { p, f, allow_empty, separator }),
{
    ManyFold { p, f, allow_empty, separator }
}

impl<T, P: Parser<T>, Q: Parser<T>, F: Accum<P::Out>> Parser<T> for ManyFold<P, Q, F> {
    type Out = F::Acc;

    open spec fn spec_run(&self, input: Seq<T>, pos: int) -> (
        int,
        Option<<F::Acc as DeepView>::V>,
    ) {
        let (fq, items, trailing) = spec_many_rec(&self.p, self.separator, input, pos, false);
        if spec_many_ok(self.separator, self.allow_empty, items.len() as int, trailing) {
            (fq, Some(spec_fold_items(&self.f, self.f.spec_init(), items)))
        } else {
            (fq, None)
        }
    }

    proof fn lemma_run_bounds(&self, input: Seq<T>, pos: int) {
        lemma_many_rec_bounds(&self.p, self.separator, input, pos, false);
    }

    fn run(&self, input: &[T], pos: usize) -> (r: (usize, Option<F::Acc>)) {
        let (fq, items, trailing) = run_many_core(&self.p, &self.separator, input, pos);
        let ok = (match &self.separator {
            Some((allow_trailing, _)) => *allow_trailing || !trailing,
            None => true,
        }) && (self.allow_empty || items.len() > 0);
        if !ok {
            return (fq, None);
        }
        let ghost items_view = items.deep_view();
        let mut acc = self.f.init();
        let n = items.len();
        let mut j: usize = 0;
        while j < n
            invariant
                0 <= j <= n == items@.len(),
                items.deep_view() == items_view,
                acc.deep_view() == spec_fold_items(
                    &self.f,
                    self.f.spec_init(),
                    items_view.take(j as int),
                ),
            decreases n - j,
        {
            let x = vstd::slice::slice_index_get(items.as_slice(), j);
            proof {
                let k = j as int;
                assert(items_view.take(k + 1) =~= items_view.take(k).push(items_view[k]));
                lemma_fold_items_snoc(
                    &self.f,
                    self.f.spec_init(),
                    items_view.take(j as int),
                    items_view[j as int],
                );
            }
            acc = self.f.step(acc, x);
            j = j + 1;
        }
        proof {
            assert(items_view.take(n as int) =~= items_view);
        }
        (fq, Some(acc))
    }
}

/// The back-tracking law of alternation: when the first alternative fails,
/// [`or`] runs the second from the original position, however much the first
/// consumed before failing; [`or_no_partial`] instead fails outright, at the
/// first alternative's failure position, whenever the first alternative
/// consumed anything, and the second is never consulted.
pub proof fn lemma_or_backtracks<T, P: Parser<T>, Q: Parser<T, Out = P::Out>>(
    p1: P,
    p2: Q,
    input: Seq<T>,
    pos: int,
)
    requires
        p1.spec_run(input, pos).1 is None,
    ensures
        (OrElse { p1, p2, allow_partial: true }).spec_run(input, pos) == p2.spec_run(input, pos),
        p1.spec_run(input, pos).0 != pos ==> (OrElse { p1, p2, allow_partial: false }).spec_run(
            input,
            pos,
        ) == (p1.spec_run(input, pos).0, Option::<<P::Out as DeepView>::V>::None),
        p1.spec_run(input, pos).0 == pos ==> (OrElse { p1, p2, allow_partial: false }).spec_run(
            input,
            pos,
        ) == p2.spec_run(input, pos),
{
}

/// The empty-repetition law: when the element parser fails at the cursor
/// without moving it, a separator-less [`many`] fails there if empty
/// repetitions are disallowed, and succeeds consuming nothing if they are
/// allowed.
pub proof fn lemma_many_empty<T: PlainItem, P: Parser<T>, Q: Parser<T>>(
    p: P,
    q: Q,
    input: Seq<T>,
    pos: int,
)
    requires
        0 <= pos <= input.len(),
        p.spec_run(input, pos).1 is None,
        p.spec_run(input, pos).0 == pos,
    ensures
        (Many { p, allow_empty: false, separator: Option::<(bool, Q)>::None }).spec_run(
            input,
            pos,
        ) == (pos, Option::<Seq<T>>::None),
        (Many { p, allow_empty: true, separator: Option::<(bool, Q)>::None }).spec_run(input, pos)
            == (pos, Some(input.subrange(pos, pos))),
{
    let rec = spec_many_rec(&p, Option::<(bool, Q)>::None, input, pos, false);
    assert(rec == (pos, Seq::<<P::Out as DeepView>::V>::empty(), false));
}

/// The parser built by [`greedy_or`].
#[derive(Clone, Copy)]
pub struct GreedyOr<P, Q> {
    /// The first alternative.
    pub p1: P,
    /// The second alternative.
    pub p2: Q,
}

/// Combine two parsers into a parser that runs both alternatives from the
/// same starting position and keeps the result of the one that consumed the
/// most input. Equal consumption favours the first alternative, and if only
/// one alternative succeeds, its result wins regardless of consumption.
pub fn greedy_or<P, Q>(p1: P, p2: Q) -> (r: GreedyOr<P, Q>)
    ensures
        r == (GreedyOr { p1, p2 }),
{
    GreedyOr { p1, p2 }
}

impl<T, P: Parser<T>, Q: Parser<T, Out = P::Out>> Parser<T> for GreedyOr<P, Q> {
    type Out = P::Out;

    open spec fn spec_run(&self, input: Seq<T>, pos: int) -> (
        int,
        Option<<P::Out as DeepView>::V>,
    ) {
        let (q1, o1) = self.p1.spec_run(input, pos);
        let (q2, o2) = self.p2.spec_run(input, pos);
        let choose_p1 = if (o1 is Some) == (o2 is Some) {
            q1 >= q2
        } else {
            o1 is Some
        };
        if choose_p1 {
            (q1, o1)
        } else {
            (q2, o2)
        }
    }

    proof fn lemma_run_bounds(&self, input: Seq<T>, pos: int) {
        self.p1.lemma_run_bounds(input, pos);
        self.p2.lemma_run_bounds(input, pos);
    }

    fn run(&self, input: &[T], pos: usize) -> (r: (usize, Option<P::Out>)) {
        let (q1, o1) = self.p1.run(input, pos);
        let (q2, o2) = self.p2.run(input, pos);
        let choose_p1 = if o1.is_some() == o2.is_some() {
            q1 >= q2
        } else {
            o1.is_some()
        };
        if choose_p1 {
            (q1, o1)
        } else {
            (q2, o2)
        }
    }
}

/// The greedy-choice law: both alternatives of [`greedy_or`] run from the
/// same position; when both succeed or both fail the one that consumed more
/// wins, ties favouring the first, and when exactly one succeeds its result
/// wins regardless of consumption.
pub proof fn lemma_greedy_or<T, P: Parser<T>, Q: Parser<T, Out = P::Out>>(
    p1: P,
    p2: Q,
    input: Seq<T>,
    pos: int,
)
    ensures
        ({
            let r1 = p1.spec_run(input, pos);
            let r2 = p2.spec_run(input, pos);
            let g = (GreedyOr { p1, p2 }).spec_run(input, pos);
            &&& ((r1.1 is Some) == (r2.1 is Some) && r1.0 >= r2.0 ==> g == r1)
            &&& ((r1.1 is Some) == (r2.1 is Some) && r1.0 < r2.0 ==> g == r2)
            &&& (r1.1 is Some && r2.1 is None ==> g == r1)
            &&& (r1.1 is None && r2.1 is Some ==> g == r2)
        }),
{
}

/// A binary operation on parse results, with a specification-level meaning.
/// Parsers used as the operator argument of [`chain`] produce such values,
/// which are their own ghost image.
pub trait Combine<A: DeepView>: Sized + DeepView<V = Self> {
    /// The meaning of the operation.
    spec fn spec_combine(&self, a: A::V, b: A::V) -> A::V;

    /// Apply the operation.
    fn combine(&self, a: A, b: A) -> (r: A)
        ensures
            r.deep_view() == self.spec_combine(a.deep_view(), b.deep_view()),
    ;

    /// An operation value is its own ghost image.
    proof fn lemma_self_view(&self)
        ensures
            self.deep_view() == *self,
    ;
}

/// The loop of [`chain`] after the first element: repeatedly parse an
/// operator and another element, folding left-associatively into `acc`.
/// Once the first element is in hand the loop never fails; it stops when the
/// operator or the element does not parse, or when a round stops advancing.
pub open spec fn spec_chain_rec<T, P: Parser<T>, Q: Parser<T>>(
    p: &P,
    op: &Q,
    input: Seq<T>,
    acc: <P::Out as DeepView>::V,
    pos: int,
) -> (int, <P::Out as DeepView>::V) where <Q as Parser<T>>::Out: Combine<P::Out>
    decreases input.len() - pos when 0 <= pos <= input.len()
{
    let (q1, o1) = op.spec_run(input, pos);
    match o1 {
        None => (q1, acc),
        Some(f) => {
            let (q2, o2) = p.spec_run(input, q1);
            match o2 {
                None => (q2, acc),
                Some(v) => {
                    let acc2 = f.spec_combine(acc, v);
                    if pos < q2 <= input.len() {
                        spec_chain_rec(p, op, input, acc2, q2)
                    } else {
                        (q2, acc2)
                    }
                },
            }
        },
    }
}

/// The chain loop stays inside the input.
pub proof fn lemma_chain_rec_bounds<T, P: Parser<T>, Q: Parser<T>>(
    p: &P,
    op: &Q,
    input: Seq<T>,
    acc: <P::Out as DeepView>::V,
    pos: int,
) where <Q as Parser<T>>::Out: Combine<P::Out>
    requires
        0 <= pos <= input.len(),
    ensures
        pos <= spec_chain_rec(p, op, input, acc, pos).0 <= input.len(),
    decreases input.len() - pos,
{
    op.lemma_run_bounds(input, pos);
    let (q1, o1) = op.spec_run(input, pos);
    if let Some(f) = o1 {
        p.lemma_run_bounds(input, q1);
        let (q2, o2) = p.spec_run(input, q1);
        if let Some(v) = o2 {
            let acc2 = f.spec_combine(acc, v);
            if pos < q2 <= input.len() {
                lemma_chain_rec_bounds(p, op, input, acc2, q2);
            }
        }
    }
}

/// The parser built by [`chain`].
#[derive(Clone, Copy)]
pub struct Chain<P, Q> {
    /// The element parser.
    pub p: P,
    /// The operator parser; it produces the binary operation to fold with.
    pub op: Q,
}

/// Chain one or more `p` separated by `op`, where `op` parses a binary
/// operation on the results of `p`. The result is the left-associative fold
/// of the operations over the elements; once the first element has parsed,
/// the chain never fails. This eliminates left recursion in expression
/// grammars.
pub fn chain<P, Q>(p: P, op: Q) -> (r: Chain<P, Q>)
    ensures
        r == (Chain { p, op }),
{
    Chain { p, op }
}

impl<T, P: Parser<T>, Q: Parser<T>> Parser<T> for Chain<P, Q> where
    <Q as Parser<T>>::Out: Combine<P::Out>,
 {
    type Out = P::Out;

    open spec fn spec_run(&self, input: Seq<T>, pos: int) -> (
        int,
        Option<<P::Out as DeepView>::V>,
    ) {
        let (q0, o0) = self.p.spec_run(input, pos);
        match o0 {
            None => (q0, None),
            Some(v) => {
                if 0 <= q0 <= input.len() {
                    let r = spec_chain_rec(&self.p, &self.op, input, v, q0);
                    (r.0, Some(r.1))
                } else {
                    (q0, Some(v))
                }
            },
        }
    }

    proof fn lemma_run_bounds(&self, input: Seq<T>, pos: int) {
        self.p.lemma_run_bounds(input, pos);
        let (q0, o0) = self.p.spec_run(input, pos);
        if let Some(v) = o0 {
            lemma_chain_rec_bounds(&self.p, &self.op, input, v, q0);
        }
    }

    fn run(&self, input: &[T], pos: usize) -> (r: (usize, Option<P::Out>)) {
        proof {
            self.p.lemma_run_bounds(input@, pos as int);
        }
        let (q0, o0) = self.p.run(input, pos);
        let mut acc = match o0 {
            None => { return (q0, None) },
            Some(v) => v,
        };
        let ilen = input.len();
        let mut cur = q0;
        let ghost full = spec_chain_rec(&self.p, &self.op, input@, acc.deep_view(), q0 as int);
        loop
            invariant
                pos <= cur <= ilen == input@.len(),
                full == spec_chain_rec(&self.p, &self.op, input@, acc.deep_view(), cur as int),
                self.spec_run(input@, pos as int) == (full.0, Some(full.1)),
            decreases ilen - cur,
        {
            proof {
                self.op.lemma_run_bounds(input@, cur as int);
            }
            let ghost acc_d = acc.deep_view();
            let (q1, o1) = self.op.run(input, cur);
            let f = match o1 {
                None => {
                    proof {
                        assert(spec_chain_rec(&self.p, &self.op, input@, acc_d, cur as int) == (
                            q1 as int,
                            acc_d,
                        ));
                    }
                    return (q1, Some(acc))
                },
                Some(f) => f,
            };
            proof {
                f.lemma_self_view();
                self.p.lemma_run_bounds(input@, q1 as int);
            }
            let (q2, o2) = self.p.run(input, q1);
            let v = match o2 {
                None => {
                    proof {
                        assert(spec_chain_rec(&self.p, &self.op, input@, acc_d, cur as int) == (
                            q2 as int,
                            acc_d,
                        ));
                    }
                    return (q2, Some(acc))
                },
                Some(v) => v,
            };
            let ghost vd = v.deep_view();
            acc = f.combine(acc, v);
            proof {
                assert(acc.deep_view() == f.spec_combine(acc_d, vd));
                if cur < q2 {
                    assert(spec_chain_rec(&self.p, &self.op, input@, acc_d, cur as int)
                        == spec_chain_rec(&self.p, &self.op, input@, acc.deep_view(), q2 as int));
                } else {
                    assert(spec_chain_rec(&self.p, &self.op, input@, acc_d, cur as int) == (
                        q2 as int,
                        acc.deep_view(),
                    ));
                }
            }
            if q2 > cur {
                cur = q2;
            } else {
                return (q2, Some(acc));
            }
        }
    }
}

} // verus!
