//! Generic decimal-literal parsers: integers, signed integers, and the
//! components of decimal fractions.
//!
//! The parsers come in an unchecked flavour, whose accumulator wraps around
//! on overflow, and in a checked flavour, which turns any value outside the
//! target type's range into an ordinary parse failure.

use vstd::prelude::*;

use crate::charlike::CharLike;
use crate::engine::Parser;
use crate::parsers::{lemma_scan_while, scan_while, spec_is_ascii_digit, IsAsciiDigit, ItemPred};

verus! {

/// Types that act like fixed-width integers: they have a mathematical value,
/// a range, and a wrapping multiply-by-ten-and-add-digit step.
pub trait NumLike: Copy + Sized + DeepView<V = Self> {
    /// The mathematical value.
    spec fn as_int(self) -> int;

    /// The smallest value of the type.
    spec fn min_int() -> int;

    /// The largest value of the type.
    spec fn max_int() -> int;

    /// The value `x` as this type; meaningful for `x` within the range.
    spec fn from_int(x: int) -> Self;

    /// The meaning of the wrapping accumulation step.
    spec fn spec_mul10_add(self, d: u8, neg: bool) -> Self;

    /// Basic facts: a value is its own ghost image, lies within the range,
    /// and is recovered from its mathematical value.
    proof fn lemma_props(self)
        ensures
            self.deep_view() == self,
            Self::min_int() <= self.as_int() <= Self::max_int(),
            Self::from_int(self.as_int()) == self,
            Self::min_int() <= 0 <= Self::max_int(),
    ;

    /// A value within the range keeps its mathematical value.
    proof fn lemma_from_int(x: int)
        requires
            Self::min_int() <= x <= Self::max_int(),
        ensures
            Self::from_int(x).as_int() == x,
    ;

    /// The zero of the type.
    fn zero() -> (r: Self)
        ensures
            r == Self::from_int(0),
            r.as_int() == 0,
    ;

    /// One wrapping accumulation step: ten times the value, plus or minus
    /// the digit.
    fn mul10_add(self, d: u8, neg: bool) -> (r: Self)
        requires
            d <= 9,
        ensures
            r == self.spec_mul10_add(d, neg),
    ;

    /// A wrapping accumulation step whose exact result fits the type's
    /// range is exact.
    proof fn lemma_mul10_add_exact(self, d: u8, neg: bool)
        requires
            d <= 9,
            Self::min_int() <= 10 * self.as_int() + (if neg {
                -(d as int)
            } else {
                d as int
            }) <= Self::max_int(),
        ensures
            self.spec_mul10_add(d, neg).as_int() == 10 * self.as_int() + (if neg {
                -(d as int)
            } else {
                d as int
            }),
    ;

    /// One checked accumulation step: the exact result, or `None` when it
    /// falls outside the type's range.
    fn mul10_add_checked(self, d: u8, neg: bool) -> (r: Option<Self>)
        requires
            d <= 9,
        ensures
            ({
                let v = 10 * self.as_int() + (if neg {
                    -(d as int)
                } else {
                    d as int
                });
                match r {
                    Some(a) => a.as_int() == v && Self::min_int() <= v <= Self::max_int(),
                    None => !(Self::min_int() <= v <= Self::max_int()),
                }
            }),
    ;
}

impl NumLike for u8 {
    open spec fn as_int(self) -> int {
        self as int
    }

    open spec fn min_int() -> int {
        0
    }

    open spec fn max_int() -> int {
        u8::MAX as int
    }

    open spec fn from_int(x: int) -> u8 {
        x as u8
    }

    open spec fn spec_mul10_add(self, d: u8, neg: bool) -> u8 {
        let m = vstd::wrapping::u8_specs::wrapping_mul(self, 10);
        if neg {
            vstd::wrapping::u8_specs::wrapping_sub(m, d)
        } else {
            vstd::wrapping::u8_specs::wrapping_add(m, d)
        }
    }

    proof fn lemma_props(self) {
    }

    proof fn lemma_from_int(x: int) {
    }

    proof fn lemma_mul10_add_exact(self, d: u8, neg: bool) {
    }

    fn zero() -> (r: Self) {
        0
    }

    fn mul10_add(self, d: u8, neg: bool) -> (r: Self) {
        let m = self.wrapping_mul(10);
        if neg {
            m.wrapping_sub(d)
        } else {
            m.wrapping_add(d)
        }
    }

    fn mul10_add_checked(self, d: u8, neg: bool) -> (r: Option<Self>) {
        let w: u32 = (self as u32) * 10;
        if neg {
            if w == 0 && d == 0 {
                Some(0)
            } else if w < d as u32 {
                None
            } else {
                let v = w - d as u32;
                if v > u8::MAX as u32 {
                    None
                } else {
                    Some(v as u8)
                }
            }
        } else {
            let v = w + d as u32;
            if v > u8::MAX as u32 {
                None
            } else {
                Some(v as u8)
            }
        }
    }
}

impl NumLike for u32 {
    open spec fn as_int(self) -> int {
        self as int
    }

    open spec fn min_int() -> int {
        0
    }

    open spec fn max_int() -> int {
        u32::MAX as int
    }

    open spec fn from_int(x: int) -> u32 {
        x as u32
    }

    open spec fn spec_mul10_add(self, d: u8, neg: bool) -> u32 {
        let m = vstd::wrapping::u32_specs::wrapping_mul(self, 10);
        if neg {
            vstd::wrapping::u32_specs::wrapping_sub(m, d as u32)
        } else {
            vstd::wrapping::u32_specs::wrapping_add(m, d as u32)
        }
    }

    proof fn lemma_props(self) {
    }

    proof fn lemma_from_int(x: int) {
    }

    proof fn lemma_mul10_add_exact(self, d: u8, neg: bool) {
    }

    fn zero() -> (r: Self) {
        0
    }

    fn mul10_add(self, d: u8, neg: bool) -> (r: Self) {
        let m = self.wrapping_mul(10);
        if neg {
            m.wrapping_sub(d as u32)
        } else {
            m.wrapping_add(d as u32)
        }
    }

    fn mul10_add_checked(self, d: u8, neg: bool) -> (r: Option<Self>) {
        let w: u64 = (self as u64) * 10;
        if neg {
            if w == 0 && d == 0 {
                Some(0)
            } else if w < d as u64 {
                None
            } else {
                let v = w - d as u64;
                if v > u32::MAX as u64 {
                    None
                } else {
                    Some(v as u32)
                }
            }
        } else {
            let v = w + d as u64;
            if v > u32::MAX as u64 {
                None
            } else {
                Some(v as u32)
            }
        }
    }
}

impl NumLike for u64 {
    open spec fn as_int(self) -> int {
        self as int
    }

    open spec fn min_int() -> int {
        0
    }

    open spec fn max_int() -> int {
        u64::MAX as int
    }

    open spec fn from_int(x: int) -> u64 {
        x as u64
    }

    open spec fn spec_mul10_add(self, d: u8, neg: bool) -> u64 {
        let m = vstd::wrapping::u64_specs::wrapping_mul(self, 10);
        if neg {
            vstd::wrapping::u64_specs::wrapping_sub(m, d as u64)
        } else {
            vstd::wrapping::u64_specs::wrapping_add(m, d as u64)
        }
    }

    proof fn lemma_props(self) {
    }

    proof fn lemma_from_int(x: int) {
    }

    proof fn lemma_mul10_add_exact(self, d: u8, neg: bool) {
    }

    fn zero() -> (r: Self) {
        0
    }

    fn mul10_add(self, d: u8, neg: bool) -> (r: Self) {
        let m = self.wrapping_mul(10);
        if neg {
            m.wrapping_sub(d as u64)
        } else {
            m.wrapping_add(d as u64)
        }
    }

    fn mul10_add_checked(self, d: u8, neg: bool) -> (r: Option<Self>) {
        let w: u128 = (self as u128) * 10;
        if neg {
            if w == 0 && d == 0 {
                Some(0)
            } else if w < d as u128 {
                None
            } else {
                let v = w - d as u128;
                if v > u64::MAX as u128 {
                    None
                } else {
                    Some(v as u64)
                }
            }
        } else {
            let v = w + d as u128;
            if v > u64::MAX as u128 {
                None
            } else {
                Some(v as u64)
            }
        }
    }
}

impl NumLike for i8 {
    open spec fn as_int(self) -> int {
        self as int
    }

    open spec fn min_int() -> int {
        i8::MIN as int
    }

    open spec fn max_int() -> int {
        i8::MAX as int
    }

    open spec fn from_int(x: int) -> i8 {
        x as i8
    }

    open spec fn spec_mul10_add(self, d: u8, neg: bool) -> i8 {
        let m = vstd::wrapping::i8_specs::wrapping_mul(self, 10);
        if neg {
            vstd::wrapping::i8_specs::wrapping_sub(m, d as i8)
        } else {
            vstd::wrapping::i8_specs::wrapping_add(m, d as i8)
        }
    }

    proof fn lemma_props(self) {
    }

    proof fn lemma_from_int(x: int) {
    }

    proof fn lemma_mul10_add_exact(self, d: u8, neg: bool) {
    }

    fn zero() -> (r: Self) {
        0
    }

    fn mul10_add(self, d: u8, neg: bool) -> (r: Self) {
        let m = self.wrapping_mul(10);
        if neg {
            m.wrapping_sub(d as i8)
        } else {
            m.wrapping_add(d as i8)
        }
    }

    fn mul10_add_checked(self, d: u8, neg: bool) -> (r: Option<Self>) {
        let w: i32 = (self as i32) * 10;
        let v: i32 = if neg {
            w - d as i32
        } else {
            w + d as i32
        };
        if v < i8::MIN as i32 || v > i8::MAX as i32 {
            None
        } else {
            Some(v as i8)
        }
    }
}

impl NumLike for i64 {
    open spec fn as_int(self) -> int {
        self as int
    }

    open spec fn min_int() -> int {
        i64::MIN as int
    }

    open spec fn max_int() -> int {
        i64::MAX as int
    }

    open spec fn from_int(x: int) -> i64 {
        x as i64
    }

    open spec fn spec_mul10_add(self, d: u8, neg: bool) -> i64 {
        let m = vstd::wrapping::i64_specs::wrapping_mul(self, 10);
        if neg {
            vstd::wrapping::i64_specs::wrapping_sub(m, d as i64)
        } else {
            vstd::wrapping::i64_specs::wrapping_add(m, d as i64)
        }
    }

    proof fn lemma_props(self) {
    }

    proof fn lemma_from_int(x: int) {
    }

    proof fn lemma_mul10_add_exact(self, d: u8, neg: bool) {
    }

    fn zero() -> (r: Self) {
        0
    }

    fn mul10_add(self, d: u8, neg: bool) -> (r: Self) {
        let m = self.wrapping_mul(10);
        if neg {
            m.wrapping_sub(d as i64)
        } else {
            m.wrapping_add(d as i64)
        }
    }

    fn mul10_add_checked(self, d: u8, neg: bool) -> (r: Option<Self>) {
        let w: i128 = (self as i128) * 10;
        let v: i128 = if neg {
            w - d as i128
        } else {
            w + d as i128
        };
        if v < i64::MIN as i128 || v > i64::MAX as i128 {
            None
        } else {
            Some(v as i64)
        }
    }
}

/// The digit an item stands for, as a number. Meaningful only for items that
/// satisfy [`spec_is_ascii_digit`].
pub open spec fn spec_digit_at<T: CharLike>(input: Seq<T>, k: int) -> u8 {
    ((input[k].spec_char() as u32 - '0' as u32) as u8)
}

/// The non-negative decimal value of the digit run `input[start..end]`.
pub open spec fn spec_digits_val<T: CharLike>(input: Seq<T>, start: int, end: int) -> int
    decreases end - start,
{
    if end <= start {
        0
    } else {
        10 * spec_digits_val(input, start, end - 1) + spec_digit_at(input, end - 1)
    }
}

/// The value of a digit run is not negative.
pub proof fn lemma_digits_val_nonneg<T: CharLike>(input: Seq<T>, start: int, end: int)
    ensures
        spec_digits_val(input, start, end) >= 0,
    decreases end - start,
{
    if end > start {
        lemma_digits_val_nonneg(input, start, end - 1);
    }
}

/// A longer digit run never has a smaller value.
pub proof fn lemma_digits_val_mono<T: CharLike>(input: Seq<T>, start: int, e1: int, e2: int)
    requires
        start <= e1 <= e2,
    ensures
        spec_digits_val(input, start, e1) <= spec_digits_val(input, start, e2),
    decreases e2 - e1,
{
    if e1 < e2 {
        lemma_digits_val_mono(input, start, e1, e2 - 1);
        lemma_digits_val_nonneg(input, start, e2 - 1);
    }
}

/// The wrapping accumulation of the digit run `input[start..end]`, as the
/// unchecked parsers compute it: start from zero, and for each digit take
/// ten times the accumulator plus (or, under a leading minus, minus) the
/// digit, wrapping around on overflow.
pub open spec fn spec_wrap_accum<T: CharLike, O: NumLike>(
    input: Seq<T>,
    start: int,
    end: int,
    neg: bool,
) -> O
    decreases end - start,
{
    if end <= start {
        O::from_int(0)
    } else {
        spec_wrap_accum::<T, O>(input, start, end - 1, neg).spec_mul10_add(
            spec_digit_at(input, end - 1),
            neg,
        )
    }
}

/// A wrapping accumulation over a digit run whose signed value fits the
/// type's range is exact: it yields precisely that value.
pub proof fn lemma_wrap_accum_exact<T: CharLike, O: NumLike>(
    input: Seq<T>,
    start: int,
    end: int,
    neg: bool,
)
    requires
        start <= end,
        forall|j: int| start <= j < end ==> spec_is_ascii_digit(#[trigger] input[j].spec_char()),
        ({
            let val = spec_digits_val(input, start, end);
            let sval = if neg {
                -val
            } else {
                val
            };
            O::min_int() <= sval <= O::max_int()
        }),
    ensures
        ({
            let val = spec_digits_val(input, start, end);
            let sval = if neg {
                -val
            } else {
                val
            };
            &&& spec_wrap_accum::<T, O>(input, start, end, neg) == O::from_int(sval)
            &&& spec_wrap_accum::<T, O>(input, start, end, neg).as_int() == sval
        }),
    decreases end - start,
{
    let val = spec_digits_val(input, start, end);
    let sval = if neg {
        -val
    } else {
        val
    };
    if end <= start {
        let zero = O::from_int(0);
        zero.lemma_props();
        O::lemma_from_int(0);
    } else {
        lemma_digits_val_nonneg(input, start, end - 1);
        lemma_digits_val_mono(input, start, end - 1, end);
        let prev = spec_wrap_accum::<T, O>(input, start, end - 1, neg);
        prev.lemma_props();
        lemma_wrap_accum_exact::<T, O>(input, start, end - 1, neg);
        let d = spec_digit_at(input, end - 1);
        assert(spec_is_ascii_digit(input[end - 1].spec_char()));
        assert(d <= 9);
        prev.lemma_mul10_add_exact(d, neg);
        let cur = spec_wrap_accum::<T, O>(input, start, end, neg);
        cur.lemma_props();
    }
}

/// The exactness law of the unchecked integer parsers: whenever the decimal
/// literal at the cursor has a value within the target type's range, the
/// unchecked parser returns exactly that value, just as the checked one
/// does; wrapping can only be observed beyond the range.
pub proof fn lemma_integer_exact<T: CharLike, O: NumLike>(
    p: IntegerParser<O>,
    input: Seq<T>,
    pos: int,
)
    requires
        !p.checked,
        0 <= pos <= input.len(),
    ensures
        ({
            let (neg, dstart, dend) = spec_number_shape(input, pos, p.allow_neg);
            let val = spec_digits_val(input, dstart, dend);
            let sval = if neg {
                -val
            } else {
                val
            };
            (dend > dstart && O::min_int() <= sval <= O::max_int()) ==> p.spec_run(input, pos) == (
                dend,
                Some(O::from_int(sval)),
            )
        }),
{
    let (neg, dstart, dend) = spec_number_shape(input, pos, p.allow_neg);
    lemma_scan_while(&IsAsciiDigit, input, dstart);
    let val = spec_digits_val(input, dstart, dend);
    let sval = if neg {
        -val
    } else {
        val
    };
    if dend > dstart && O::min_int() <= sval <= O::max_int() {
        lemma_wrap_accum_exact::<T, O>(input, dstart, dend, neg);
    }
}

/// Where the digits of a decimal literal start and stop: an optional leading
/// minus (if `allow_neg`), then the longest run of decimal digits. Yields
/// whether the literal is negative, where its digits start, and where they
/// stop.
pub open spec fn spec_number_shape<T: CharLike>(input: Seq<T>, pos: int, allow_neg: bool) -> (
    bool,
    int,
    int,
) {
    let neg = allow_neg && pos < input.len() && input[pos].spec_char() == '-';
    let dstart = if neg {
        pos + 1
    } else {
        pos
    };
    let dend = scan_while(&IsAsciiDigit, input, dstart);
    (neg, dstart, dend)
}

/// A parser for a decimal integer literal.
///
/// With `allow_neg` the literal may start with `-`; one or more digits must
/// follow the optional sign, and the parser consumes exactly the sign and
/// the digits, failing without consuming anything when there is no digit.
///
/// The `checked` flavour fails, consuming nothing, when the literal's value
/// does not fit in `O`; the unchecked flavour wraps around instead.
pub struct IntegerParser<O> {
    /// Whether a value outside the range fails the parse.
    pub checked: bool,
    /// Whether a leading minus is accepted.
    pub allow_neg: bool,
    /// The target type.
    pub marker: core::marker::PhantomData<O>,
}

impl<O> Clone for IntegerParser<O> {
    fn clone(&self) -> (r: Self)
        ensures
            r == *self,
    {
        IntegerParser {
            checked: self.checked,
            allow_neg: self.allow_neg,
            marker: core::marker::PhantomData,
        }
    }
}

impl<O> Copy for IntegerParser<O> {

}

/// Parse an unsigned integer, wrapping on overflow.
pub fn integer<O: NumLike>() -> (r: IntegerParser<O>)
    ensures
        r == (IntegerParser::<O> { checked: false, allow_neg: false, marker: core::marker::PhantomData }),
{
    IntegerParser { checked: false, allow_neg: false, marker: core::marker::PhantomData }
}

/// Parse an unsigned integer; fail if the value does not fit in `O`.
pub fn integer_checked<O: NumLike>() -> (r: IntegerParser<O>)
    ensures
        r == (IntegerParser::<O> { checked: true, allow_neg: false, marker: core::marker::PhantomData }),
{
    IntegerParser { checked: true, allow_neg: false, marker: core::marker::PhantomData }
}

/// Parse an integer with an optional leading minus, wrapping on overflow.
pub fn integer_signed<O: NumLike>() -> (r: IntegerParser<O>)
    ensures
        r == (IntegerParser::<O> { checked: false, allow_neg: true, marker: core::marker::PhantomData }),
{
    IntegerParser { checked: false, allow_neg: true, marker: core::marker::PhantomData }
}

/// Parse an integer with an optional leading minus; fail if the value does
/// not fit in `O`.
pub fn integer_signed_checked<O: NumLike>() -> (r: IntegerParser<O>)
    ensures
        r == (IntegerParser::<O> { checked: true, allow_neg: true, marker: core::marker::PhantomData }),
{
    IntegerParser { checked: true, allow_neg: true, marker: core::marker::PhantomData }
}

/// The components of a decimal fraction literal, such as `-13.37`: the
/// integer part with its sign, and the fraction digits read as an integer
/// together with how many there are. The value the literal denotes is
/// `int_part + sign * frac / 10^frac_digits`; the caller forms it in
/// whatever arithmetic it wants.
#[derive(Clone, Copy)]
pub struct FloatParts {
    /// The integer part, with the sign applied.
    pub int_part: i64,
    /// Whether the literal starts with a minus.
    pub negative: bool,
    /// The fraction digits read as an integer; zero if there is no fraction.
    pub frac: u64,
    /// How many fraction digits there are; zero if there is no fraction.
    pub frac_digits: usize,
}

impl DeepView for FloatParts {
    type V = FloatParts;

    open spec fn deep_view(&self) -> FloatParts {
        *self
    }
}

/// A parser for a decimal fraction literal: an optionally signed integer
/// part, optionally followed by `.` and one or more fraction digits. A `.`
/// not followed by a digit is left unconsumed. The parts are accumulated in
/// fixed-width integers, so digit runs beyond their range wrap around in the
/// unchecked flavour and fail the parse in the checked one.
#[derive(Clone, Copy)]
pub struct FloatParser {
    /// Whether a part outside its type's range fails the parse.
    pub checked: bool,
}

/// Parse the parts of a decimal fraction literal, wrapping on overflow.
pub fn float() -> (r: FloatParser)
    ensures
        r == (FloatParser { checked: false }),
{
    FloatParser { checked: false }
}

/// Parse the parts of a decimal fraction literal; fail if a part does not
/// fit its fixed-width type.
pub fn float_checked() -> (r: FloatParser)
    ensures
        r == (FloatParser { checked: true }),
{
    FloatParser { checked: true }
}

impl FloatParser {
    /// The integer-part parser this parser starts with.
    pub open spec fn spec_int_parser(&self) -> IntegerParser<i64> {
        IntegerParser { checked: self.checked, allow_neg: true, marker: core::marker::PhantomData }
    }

    /// The fraction-digits parser this parser continues with.
    pub open spec fn spec_frac_parser(&self) -> IntegerParser<u64> {
        IntegerParser { checked: self.checked, allow_neg: false, marker: core::marker::PhantomData }
    }
}

impl<T: CharLike> Parser<T> for FloatParser {
    type Out = FloatParts;

    open spec fn spec_run(&self, input: Seq<T>, pos: int) -> (int, Option<FloatParts>) {
        let (q1, o1) = self.spec_int_parser().spec_run(input, pos);
        match o1 {
            None => (q1, None),
            Some(n) => {
                let neg = pos < input.len() && input[pos].spec_char() == '-';
                if q1 < input.len() && input[q1].spec_char() == '.' {
                    let (q2, o2) = self.spec_frac_parser().spec_run(input, q1 + 1);
                    match o2 {
                        Some(f) => (
                            q2,
                            Some(
                                FloatParts {
                                    int_part: n,
                                    negative: neg,
                                    frac: f,
                                    frac_digits: (q2 - (q1 + 1)) as usize,
                                },
                            ),
                        ),
                        None => (
                            q1,
                            Some(FloatParts { int_part: n, negative: neg, frac: 0, frac_digits: 0 }),
                        ),
                    }
                } else {
                    (q1, Some(FloatParts { int_part: n, negative: neg, frac: 0, frac_digits: 0 }))
                }
            },
        }
    }

    proof fn lemma_run_bounds(&self, input: Seq<T>, pos: int) {
        let p1 = self.spec_int_parser();
        p1.lemma_run_bounds(input, pos);
        let (q1, o1) = p1.spec_run(input, pos);
        if o1 is Some && q1 < input.len() && input[q1].spec_char() == '.' {
            let p2 = self.spec_frac_parser();
            p2.lemma_run_bounds(input, q1 + 1);
        }
    }

    fn run(&self, input: &[T], pos: usize) -> (r: (usize, Option<FloatParts>)) {
        let int_p: IntegerParser<i64> = IntegerParser {
            checked: self.checked,
            allow_neg: true,
            marker: core::marker::PhantomData,
        };
        proof {
            int_p.lemma_run_bounds(input@, pos as int);
        }
        let (q1, o1) = int_p.run(input, pos);
        let n = match o1 {
            None => { return (q1, None) },
            Some(n) => n,
        };
        let neg = pos < input.len() && (*vstd::slice::slice_index_get(input, pos)).as_char() == '-';
        if q1 < input.len() && (*vstd::slice::slice_index_get(input, q1)).as_char() == '.' {
            let frac_p: IntegerParser<u64> = IntegerParser {
                checked: self.checked,
                allow_neg: false,
                marker: core::marker::PhantomData,
            };
            proof {
                frac_p.lemma_run_bounds(input@, q1 + 1);
            }
            let (q2, o2) = frac_p.run(input, q1 + 1);
            match o2 {
                Some(f) => (
                    q2,
                    Some(
                        FloatParts {
                            int_part: n,
                            negative: neg,
                            frac: f,
                            frac_digits: q2 - (q1 + 1),
                        },
                    ),
                ),
                None => (q1, Some(FloatParts { int_part: n, negative: neg, frac: 0, frac_digits: 0 })),
            }
        } else {
            (q1, Some(FloatParts { int_part: n, negative: neg, frac: 0, frac_digits: 0 }))
        }
    }
}

impl<T: CharLike, O: NumLike> Parser<T> for IntegerParser<O> {
    type Out = O;

    open spec fn spec_run(&self, input: Seq<T>, pos: int) -> (int, Option<O>) {
        let (neg, dstart, dend) = spec_number_shape(input, pos, self.allow_neg);
        if dend <= dstart {
            (pos, None)
        } else if self.checked {
            let val = spec_digits_val(input, dstart, dend);
            let sval = if neg {
                -val
            } else {
                val
            };
            if O::min_int() <= sval <= O::max_int() {
                (dend, Some(O::from_int(sval)))
            } else {
                (pos, None)
            }
        } else {
            (dend, Some(spec_wrap_accum::<T, O>(input, dstart, dend, neg)))
        }
    }

    proof fn lemma_run_bounds(&self, input: Seq<T>, pos: int) {
        let (neg, dstart, dend) = spec_number_shape(input, pos, self.allow_neg);
        lemma_scan_while(&IsAsciiDigit, input, dstart);
    }

    fn run(&self, input: &[T], pos: usize) -> (r: (usize, Option<O>)) {
        let ilen = input.len();
        let ghost shape = spec_number_shape(input@, pos as int, self.allow_neg);
        let mut neg = false;
        let mut dstart = pos;
        if self.allow_neg && pos < ilen {
            let c = (*vstd::slice::slice_index_get(input, pos)).as_char();
            if c == '-' {
                neg = true;
                dstart = pos + 1;
            }
        }
        proof {
            assert(shape.0 == neg && shape.1 == dstart as int);
            lemma_scan_while(&IsAsciiDigit, input@, dstart as int);
        }
        let ghost dend = shape.2;
        let mut i: usize = dstart;
        let mut acc = O::zero();
        let mut overflowed = false;
        proof {
            acc.lemma_props();
        }
        while i < ilen && (IsAsciiDigit).pred(*vstd::slice::slice_index_get(input, i))
            invariant
                pos <= dstart <= i <= ilen == input@.len(),
                i <= dend <= ilen,
                dend == scan_while(&IsAsciiDigit, input@, dstart as int),
                forall|j: int| dstart <= j < dend ==> spec_is_ascii_digit(input@[j].spec_char()),
                dend < ilen ==> !spec_is_ascii_digit(input@[dend as int].spec_char()),
                O::min_int() <= 0 <= O::max_int(),
                acc.deep_view() == acc,
                !overflowed && !self.checked ==> acc == spec_wrap_accum::<T, O>(
                    input@,
                    dstart as int,
                    i as int,
                    neg,
                ),
                !overflowed && self.checked ==> ({
                    let val = spec_digits_val(input@, dstart as int, i as int);
                    let sval = if neg {
                        -val
                    } else {
                        val
                    };
                    O::min_int() <= sval <= O::max_int() && acc == O::from_int(sval)
                        && acc.as_int() == sval
                }),
                overflowed ==> self.checked && ({
                    let val = spec_digits_val(input@, dstart as int, dend);
                    let sval = if neg {
                        -val
                    } else {
                        val
                    };
                    !(O::min_int() <= sval <= O::max_int())
                }),
            decreases ilen - i,
        {
            let c = (*vstd::slice::slice_index_get(input, i)).as_char();
            let d = (c as u32 - '0' as u32) as u8;
            proof {
                assert(spec_is_ascii_digit(input@[i as int].spec_char()));
                assert(i < dend) by {
                    if i as int == dend {
                        assert(!spec_is_ascii_digit(input@[dend as int].spec_char()));
                    }
                }
                assert(d == spec_digit_at(input@, i as int));
                assert(spec_digits_val(input@, dstart as int, i + 1) == 10 * spec_digits_val(
                    input@,
                    dstart as int,
                    i as int,
                ) + d);
            }
            if !overflowed {
                if self.checked {
                    let ghost val_i = spec_digits_val(input@, dstart as int, i as int);
                    match acc.mul10_add_checked(d, neg) {
                        Some(a2) => {
                            proof {
                                a2.lemma_props();
                            }
                            acc = a2;
                        },
                        None => {
                            proof {
                                lemma_digits_val_mono(input@, dstart as int, i + 1, dend);
                                lemma_digits_val_nonneg(input@, dstart as int, i as int);
                            }
                            overflowed = true;
                        },
                    }
                } else {
                    let a2 = acc.mul10_add(d, neg);
                    proof {
                        a2.lemma_props();
                    }
                    acc = a2;
                }
            }
            i = i + 1;
        }
        proof {
            assert(i as int == dend) by {
                if (i as int) < dend {
                    assert(spec_is_ascii_digit(input@[i as int].spec_char()));
                }
            }
        }
        if i == dstart {
            return (pos, None);
        }
        if self.checked {
            if overflowed {
                (pos, None)
            } else {
                (i, Some(acc))
            }
        } else {
            (i, Some(acc))
        }
    }
}

} // verus!
