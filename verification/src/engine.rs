//! The cursor model and the parser trait.
//!
//! A parse works on a borrowed slice together with a position. The position
//! only ever moves forward; a parser that fails may still leave the position
//! anywhere between where it started and the end of the input, and the
//! combinators that back-track do so simply by running the next alternative
//! from the saved position.

use vstd::prelude::*;
use vstd::slice::slice_subrange;

verus! {

/// The final result of a parse: the remaining input and the produced value,
/// if the parse succeeded.
pub struct AnpaResult<T, O> {
    /// What is left of the input after the parse.
    pub state: T,
    /// The result of the parse.
    pub result: Option<O>,
}

/// A parser over items of type `T`.
///
/// `spec_run` is the mathematical meaning of the parser: given the input and
/// a starting position it yields the position after the step and the value
/// produced, or `None` for failure. The executable `run` is proved to agree
/// with `spec_run` exactly, and `lemma_run_bounds` guarantees that no parser
/// ever moves the cursor backward or past the end of the input.
pub trait Parser<T>: Sized {
    /// The value produced on success.
    type Out: DeepView;

    /// The meaning of this parser: final position, and the produced value or
    /// `None` on failure.
    spec fn spec_run(&self, input: Seq<T>, pos: int) -> (int, Option<<Self::Out as DeepView>::V>);

    /// The cursor moves forward only, and never past the end of the input.
    proof fn lemma_run_bounds(&self, input: Seq<T>, pos: int)
        requires
            0 <= pos <= input.len(),
        ensures
            pos <= self.spec_run(input, pos).0 <= input.len(),
    ;

    /// Run the parser on `input` starting at `pos`.
    fn run(&self, input: &[T], pos: usize) -> (r: (usize, Option<Self::Out>))
        requires
            pos <= input.len(),
        ensures
            ({
                let (spos, sval) = self.spec_run(input@, pos as int);
                &&& r.0 as int == spos
                &&& (match r.1 {
                    Some(v) => sval == Some(v.deep_view()),
                    None => sval is None,
                })
            }),
    ;
}

/// Pushing onto a vector appends the element's ghost image to the vector's.
pub proof fn lemma_deep_view_push<A: DeepView>(v1: &Vec<A>, v2: &Vec<A>, x: A)
    requires
        v2@ == v1@.push(x),
    ensures
        v2.deep_view() == v1.deep_view().push(x.deep_view()),
{
    assert(v2.deep_view() =~= v1.deep_view().push(x.deep_view()));
}

/// An empty vector has an empty ghost image.
pub proof fn lemma_deep_view_empty<A: DeepView>(v: &Vec<A>)
    requires
        v@.len() == 0,
    ensures
        v.deep_view() == Seq::<A::V>::empty(),
{
    assert(v.deep_view() =~= Seq::<A::V>::empty());
}

/// Perform a parse on a slice.
///
/// Returns the rest of the input after the parse together with the result.
pub fn parse<'a, T, P: Parser<T>>(p: &P, input: &'a [T]) -> (r: AnpaResult<&'a [T], P::Out>)
    ensures
        ({
            let (spos, sval) = p.spec_run(input@, 0);
            &&& r.state@ == input@.subrange(spos, input@.len() as int)
            &&& (match r.result {
                Some(v) => sval == Some(v.deep_view()),
                None => sval is None,
            })
        }),
{
    let (pos, result) = p.run(input, 0);
    proof {
        p.lemma_run_bounds(input@, 0);
    }
    let state = slice_subrange(input, pos, input.len());
    AnpaResult { state, result }
}

/// Perform a parse on a string, running the parser over its characters.
///
/// Returns the rest of the input after the parse together with the result.
pub fn parse_str<P: Parser<char>>(p: &P, input: &str) -> (r: AnpaResult<String, P::Out>)
    ensures
        ({
            let (spos, sval) = p.spec_run(input@, 0);
            &&& r.state@ == input@.subrange(spos, input@.len() as int)
            &&& (match r.result {
                Some(v) => sval == Some(v.deep_view()),
                None => sval is None,
            })
        }),
{
    let chars = crate::text::str_to_chars(input);
    let (pos, result) = p.run(chars.as_slice(), 0);
    proof {
        p.lemma_run_bounds(input@, 0);
    }
    let state = crate::text::chars_to_string(chars.as_slice(), pos, chars.len());
    AnpaResult { state, result }
}

} // verus!
