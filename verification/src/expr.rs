//! An arithmetic-expression evaluator: the engine's `chain` pattern written
//! out for a recursive grammar, with two precedence levels and parentheses.
//!
//! The grammar is `expr := factor (('+'|'-') factor)*`,
//! `factor := atom (('*'|'/') atom)*`, and `atom := integer | '(' expr ')'`,
//! evaluated left-associatively as it parses. Addition, subtraction and
//! multiplication wrap around on overflow; a division whose result is not
//! representable (division by zero, or the smallest value divided by minus
//! one) fails the parse.

use vstd::prelude::*;

use crate::combinators::{Filtered, NonEmptySeq};
use crate::engine::Parser;
use crate::number::{IntegerParser, NumLike};
use crate::parsers::{lemma_scan_while, scan_while, IsAsciiAlphanumeric, ItemWhile};

verus! {

/// The signed integer parser the atoms use.
pub open spec fn spec_atom_number() -> IntegerParser<i64> {
    IntegerParser { checked: false, allow_neg: true, marker: core::marker::PhantomData }
}

/// Truncated division of `a` by `b`: the quotient of the magnitudes, with
/// the sign of the operands' product. Meaningful for `b != 0`.
pub open spec fn spec_div_trunc(a: int, b: int) -> int {
    let ua = if a < 0 {
        -a
    } else {
        a
    };
    let ub = if b < 0 {
        -b
    } else {
        b
    };
    let q = ua / ub;
    if (a < 0) == (b < 0) {
        q
    } else {
        -q
    }
}

/// Applying one binary operator, or failing where the result is not
/// representable.
pub open spec fn spec_apply_op(op: char, a: i64, b: i64) -> Option<i64> {
    if op == '+' {
        Some(vstd::wrapping::i64_specs::wrapping_add(a, b))
    } else if op == '-' {
        Some(vstd::wrapping::i64_specs::wrapping_sub(a, b))
    } else if op == '*' {
        Some(vstd::wrapping::i64_specs::wrapping_mul(a, b))
    } else {
        if b == 0 || (a == i64::MIN && b == -1) {
            None
        } else {
            Some(spec_div_trunc(a as int, b as int) as i64)
        }
    }
}

/// Apply one binary operator.
fn apply_op(op: char, a: i64, b: i64) -> (r: Option<i64>)
    requires
        op == '+' || op == '-' || op == '*' || op == '/',
    ensures
        r == spec_apply_op(op, a, b),
{
    if op == '+' {
        Some(a.wrapping_add(b))
    } else if op == '-' {
        Some(a.wrapping_sub(b))
    } else if op == '*' {
        Some(a.wrapping_mul(b))
    } else {
        if b == 0 || (a == i64::MIN && b == -1) {
            None
        } else {
            let ua: u64 = if a >= 0 {
                a as u64
            } else if a == i64::MIN {
                9223372036854775808u64
            } else {
                (-a) as u64
            };
            let ub: u64 = if b >= 0 {
                b as u64
            } else if b == i64::MIN {
                9223372036854775808u64
            } else {
                (-b) as u64
            };
            let q = ua / ub;
            proof {
                vstd::arithmetic::div_mod::lemma_fundamental_div_mod(ua as int, ub as int);
                assert(q * ub <= ua) by (nonlinear_arith)
                    requires
                        q == ua as int / ub as int,
                        ua == (ub as int) * (ua as int / ub as int) + (ua as int % ub as int),
                        0 <= ua as int % ub as int,
                ;
                if ub >= 2 && q > i64::MAX as u64 {
                    assert(q * ub >= q * 2) by (nonlinear_arith)
                        requires
                            ub >= 2,
                            q >= 0,
                    ;
                }
            }
            if (a < 0) == (b < 0) {
                Some(q as i64)
            } else {
                if q > i64::MAX as u64 {
                    Some(i64::MIN)
                } else {
                    Some(-(q as i64))
                }
            }
        }
    }
}

/// The meaning of an atom: a signed integer literal, or a parenthesised
/// expression. An atom that does not parse fails without moving the cursor.
pub open spec fn spec_atom(input: Seq<char>, pos: int) -> (int, Option<i64>)
    decreases input.len() - pos, 0int when 0 <= pos <= input.len()
{
    let (q, o) = spec_atom_number().spec_run(input, pos);
    if o is Some {
        (q, o)
    } else if pos < input.len() && input[pos] == '(' {
        let (q2, o2) = spec_expr(input, pos + 1);
        match o2 {
            Some(v) => if q2 < input.len() && input[q2] == ')' {
                (q2 + 1, Some(v))
            } else {
                (pos, None)
            },
            None => (pos, None),
        }
    } else {
        (pos, None)
    }
}

/// The meaning of a factor: an atom, followed by any number of `*` or `/`
/// steps applied left-associatively.
pub open spec fn spec_factor(input: Seq<char>, pos: int) -> (int, Option<i64>)
    decreases input.len() - pos, 1int when 0 <= pos <= input.len()
{
    let (q, o) = spec_atom(input, pos);
    match o {
        Some(v) => {
            if pos < q <= input.len() {
                spec_factor_tail(input, v, q)
            } else {
                (q, Some(v))
            }
        },
        None => (q, None),
    }
}

/// The loop of a factor after its first atom: like the engine's `chain`, it
/// never fails once the first atom is in hand, except on an unrepresentable
/// division.
pub open spec fn spec_factor_tail(input: Seq<char>, acc: i64, pos: int) -> (int, Option<i64>)
    decreases input.len() - pos, 2int when 0 <= pos <= input.len()
{
    if pos < input.len() && (input[pos] == '*' || input[pos] == '/') {
        let op = input[pos];
        let (q2, o2) = spec_atom(input, pos + 1);
        match o2 {
            Some(v) => match spec_apply_op(op, acc, v) {
                Some(acc2) => if pos < q2 <= input.len() {
                    spec_factor_tail(input, acc2, q2)
                } else {
                    (q2, Some(acc2))
                },
                None => (q2, None),
            },
            None => (q2, Some(acc)),
        }
    } else {
        (pos, Some(acc))
    }
}

/// The meaning of an expression: a factor, followed by any number of `+` or
/// `-` steps applied left-associatively.
pub open spec fn spec_expr(input: Seq<char>, pos: int) -> (int, Option<i64>)
    decreases input.len() - pos, 3int when 0 <= pos <= input.len()
{
    let (q, o) = spec_factor(input, pos);
    match o {
        Some(v) => {
            if pos < q <= input.len() {
                spec_expr_tail(input, v, q)
            } else {
                (q, Some(v))
            }
        },
        None => (q, None),
    }
}

/// The loop of an expression after its first factor.
pub open spec fn spec_expr_tail(input: Seq<char>, acc: i64, pos: int) -> (int, Option<i64>)
    decreases input.len() - pos, 4int when 0 <= pos <= input.len()
{
    if pos < input.len() && (input[pos] == '+' || input[pos] == '-') {
        let op = input[pos];
        let (q2, o2) = spec_factor(input, pos + 1);
        match o2 {
            Some(v) => match spec_apply_op(op, acc, v) {
                Some(acc2) => if pos < q2 <= input.len() {
                    spec_expr_tail(input, acc2, q2)
                } else {
                    (q2, Some(acc2))
                },
                None => (q2, None),
            },
            None => (q2, Some(acc)),
        }
    } else {
        (pos, Some(acc))
    }
}

/// The positions these grammar rules yield stay inside the input.
pub proof fn lemma_expr_bounds(input: Seq<char>, acc: i64, pos: int, rank: int)
    requires
        0 <= pos <= input.len(),
        0 <= rank <= 4,
    ensures
        rank == 0 ==> pos <= spec_atom(input, pos).0 <= input.len(),
        rank == 1 ==> pos <= spec_factor(input, pos).0 <= input.len(),
        rank == 2 ==> pos <= spec_factor_tail(input, acc, pos).0 <= input.len(),
        rank == 3 ==> pos <= spec_expr(input, pos).0 <= input.len(),
        rank == 4 ==> pos <= spec_expr_tail(input, acc, pos).0 <= input.len(),
    decreases input.len() - pos, rank,
{
    if rank == 0 {
        spec_atom_number().lemma_run_bounds(input, pos);
        let (q, o) = spec_atom_number().spec_run(input, pos);
        if o is None && pos < input.len() && input[pos] == '(' {
            lemma_expr_bounds(input, acc, pos + 1, 3);
        }
    } else if rank == 1 {
        lemma_expr_bounds(input, acc, pos, 0);
        let (q, o) = spec_atom(input, pos);
        if o is Some && pos < q <= input.len() {
            lemma_expr_bounds(input, o->0, q, 2);
        }
    } else if rank == 2 {
        if pos < input.len() && (input[pos] == '*' || input[pos] == '/') {
            let op = input[pos];
            lemma_expr_bounds(input, acc, pos + 1, 0);
            let (q2, o2) = spec_atom(input, pos + 1);
            if o2 is Some && spec_apply_op(op, acc, o2->0) is Some && pos < q2 <= input.len() {
                lemma_expr_bounds(input, spec_apply_op(op, acc, o2->0)->0, q2, 2);
            }
        }
    } else if rank == 3 {
        lemma_expr_bounds(input, acc, pos, 1);
        let (q, o) = spec_factor(input, pos);
        if o is Some && pos < q <= input.len() {
            lemma_expr_bounds(input, o->0, q, 4);
        }
    } else {
        if pos < input.len() && (input[pos] == '+' || input[pos] == '-') {
            let op = input[pos];
            lemma_expr_bounds(input, acc, pos + 1, 1);
            let (q2, o2) = spec_factor(input, pos + 1);
            if o2 is Some && spec_apply_op(op, acc, o2->0) is Some && pos < q2 <= input.len() {
                lemma_expr_bounds(input, spec_apply_op(op, acc, o2->0)->0, q2, 4);
            }
        }
    }
}

/// Parse an atom at `pos`.
pub fn atom(input: &[char], pos: usize) -> (r: (usize, Option<i64>))
    requires
        pos <= input.len(),
    ensures
        ({
            let (q, o) = spec_atom(input@, pos as int);
            r.0 as int == q && r.1 == o
        }),
    decreases input@.len() - pos, 0int,
{
    let number: IntegerParser<i64> = IntegerParser {
        checked: false,
        allow_neg: true,
        marker: core::marker::PhantomData,
    };
    proof {
        number.lemma_run_bounds(input@, pos as int);
    }
    let (q, o) = number.run(input, pos);
    match o {
        Some(v) => {
            proof {
                v.lemma_props();
            }
            (q, Some(v))
        },
        None => {
            if pos < input.len() && *vstd::slice::slice_index_get(input, pos) == '(' {
                proof {
                    lemma_expr_bounds(input@, 0, pos + 1, 3);
                }
                let (q2, o2) = expr(input, pos + 1);
                match o2 {
                    Some(v) => {
                        if q2 < input.len() && *vstd::slice::slice_index_get(input, q2) == ')' {
                            (q2 + 1, Some(v))
                        } else {
                            (pos, None)
                        }
                    },
                    None => (pos, None),
                }
            } else {
                (pos, None)
            }
        },
    }
}

/// Parse a factor at `pos`.
pub fn factor(input: &[char], pos: usize) -> (r: (usize, Option<i64>))
    requires
        pos <= input.len(),
    ensures
        ({
            let (q, o) = spec_factor(input@, pos as int);
            r.0 as int == q && r.1 == o
        }),
    decreases input@.len() - pos, 1int,
{
    proof {
        lemma_expr_bounds(input@, 0, pos as int, 0);
    }
    let (q, o) = atom(input, pos);
    match o {
        Some(v) => {
            if pos < q {
                factor_tail(input, v, q)
            } else {
                (q, Some(v))
            }
        },
        None => (q, None),
    }
}

/// Run the `*`/`/` loop of a factor.
pub fn factor_tail(input: &[char], acc: i64, pos: usize) -> (r: (usize, Option<i64>))
    requires
        pos <= input.len(),
    ensures
        ({
            let (q, o) = spec_factor_tail(input@, acc, pos as int);
            r.0 as int == q && r.1 == o
        }),
    decreases input@.len() - pos, 2int,
{
    if pos < input.len() {
        let op = *vstd::slice::slice_index_get(input, pos);
        if op == '*' || op == '/' {
            proof {
                lemma_expr_bounds(input@, 0, pos + 1, 0);
            }
            let (q2, o2) = atom(input, pos + 1);
            match o2 {
                Some(v) => {
                    match apply_op(op, acc, v) {
                        Some(acc2) => {
                            if pos < q2 {
                                return factor_tail(input, acc2, q2);
                            } else {
                                return (q2, Some(acc2));
                            }
                        },
                        None => {
                            return (q2, None);
                        },
                    }
                },
                None => {
                    return (q2, Some(acc));
                },
            }
        }
    }
    (pos, Some(acc))
}

/// Parse an expression at `pos`.
pub fn expr(input: &[char], pos: usize) -> (r: (usize, Option<i64>))
    requires
        pos <= input.len(),
    ensures
        ({
            let (q, o) = spec_expr(input@, pos as int);
            r.0 as int == q && r.1 == o
        }),
    decreases input@.len() - pos, 3int,
{
    proof {
        lemma_expr_bounds(input@, 0, pos as int, 1);
    }
    let (q, o) = factor(input, pos);
    match o {
        Some(v) => {
            if pos < q {
                expr_tail(input, v, q)
            } else {
                (q, Some(v))
            }
        },
        None => (q, None),
    }
}

/// Run the `+`/`-` loop of an expression.
pub fn expr_tail(input: &[char], acc: i64, pos: usize) -> (r: (usize, Option<i64>))
    requires
        pos <= input.len(),
    ensures
        ({
            let (q, o) = spec_expr_tail(input@, acc, pos as int);
            r.0 as int == q && r.1 == o
        }),
    decreases input@.len() - pos, 4int,
{
    if pos < input.len() {
        let op = *vstd::slice::slice_index_get(input, pos);
        if op == '+' || op == '-' {
            proof {
                lemma_expr_bounds(input@, 0, pos + 1, 1);
            }
            let (q2, o2) = factor(input, pos + 1);
            match o2 {
                Some(v) => {
                    match apply_op(op, acc, v) {
                        Some(acc2) => {
                            if pos < q2 {
                                return expr_tail(input, acc2, q2);
                            } else {
                                return (q2, Some(acc2));
                            }
                        },
                        None => {
                            return (q2, None);
                        },
                    }
                },
                None => {
                    return (q2, Some(acc));
                },
            }
        }
    }
    (pos, Some(acc))
}

/// Evaluate the arithmetic expression at the start of `text` and return its
/// value; what follows the expression is left alone.
pub fn eval(text: &str) -> (r: Option<i64>)
    ensures
        r == spec_expr(text@, 0).1,
{
    let chars = crate::text::str_to_chars(text);
    let (_, o) = expr(chars.as_slice(), 0);
    o
}

/// The meaning of [`in_parens`]: a non-empty run of ASCII letters and
/// digits, wrapped in any depth of matching parentheses. The run is the
/// result; a failure consumes nothing.
pub open spec fn spec_in_parens(input: Seq<char>, pos: int) -> (int, Option<Seq<char>>)
    decreases input.len() - pos when 0 <= pos <= input.len()
{
    let stop = scan_while(&IsAsciiAlphanumeric, input, pos);
    if stop > pos {
        (stop, Some(input.subrange(pos, stop)))
    } else if pos < input.len() && input[pos] == '(' {
        let (q, o) = spec_in_parens(input, pos + 1);
        match o {
            Some(v) => if q < input.len() && input[q] == ')' {
                (q + 1, Some(v))
            } else {
                (pos, None)
            },
            None => (pos, None),
        }
    } else {
        (pos, None)
    }
}

/// The nested grammar stays inside the input.
pub proof fn lemma_in_parens_bounds(input: Seq<char>, pos: int)
    requires
        0 <= pos <= input.len(),
    ensures
        pos <= spec_in_parens(input, pos).0 <= input.len(),
    decreases input.len() - pos,
{
    lemma_scan_while(&IsAsciiAlphanumeric, input, pos);
    let stop = scan_while(&IsAsciiAlphanumeric, input, pos);
    if stop <= pos && pos < input.len() && input[pos] == '(' {
        lemma_in_parens_bounds(input, pos + 1);
    }
}

/// Parse a non-empty run of ASCII letters and digits wrapped in any depth
/// of matching parentheses: a self-referential grammar written as a named
/// recursive function.
pub fn in_parens(input: &[char], pos: usize) -> (r: (usize, Option<Vec<char>>))
    requires
        pos <= input.len(),
    ensures
        ({
            let (q, o) = spec_in_parens(input@, pos as int);
            &&& r.0 as int == q
            &&& (match r.1 {
                Some(v) => o == Some(v.deep_view()),
                None => o is None,
            })
        }),
    decreases input@.len() - pos,
{
    let word: Filtered<ItemWhile<IsAsciiAlphanumeric>, NonEmptySeq> = Filtered {
        p: ItemWhile { pred: IsAsciiAlphanumeric },
        f: NonEmptySeq,
    };
    proof {
        word.lemma_run_bounds(input@, pos as int);
        lemma_scan_while(&IsAsciiAlphanumeric, input@, pos as int);
    }
    let (stop, o) = word.run(input, pos);
    if let Some(v) = o {
        return (stop, Some(v));
    }
    if pos < input.len() && *vstd::slice::slice_index_get(input, pos) == '(' {
        proof {
            lemma_in_parens_bounds(input@, pos + 1);
        }
        let (q, o) = in_parens(input, pos + 1);
        match o {
            Some(v) => {
                if q < input.len() && *vstd::slice::slice_index_get(input, q) == ')' {
                    (q + 1, Some(v))
                } else {
                    (pos, None)
                }
            },
            None => (pos, None),
        }
    } else {
        (pos, None)
    }
}

} // verus!
