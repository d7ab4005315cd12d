use anpa::combinators::{
    bind, count_consumed, fold, greedy_or, left, many, many_to_vec, no_separator, or, or_diff,
    or_no_partial, peek, right, separator, times, RepeatCount, SumU32,
};
use anpa::number::integer;
use anpa::parse_str;
use anpa::parsers::{empty, failure, item, item_while, skip, take, IsAsciiDigit};

fn cs(s: &str) -> Vec<char> {
    s.chars().collect()
}

fn num_parser() -> impl anpa::Parser<char, Out = u32> {
    let num = integer::<u32>();
    or(left(num, take(',')), left(num, empty()))
}

#[test]
fn many_nums_vec() {
    let p = many_to_vec(num_parser(), true, no_separator());
    let res = parse_str(&p, "1,2,3,4").result.unwrap();
    assert_eq!(res, vec![1, 2, 3, 4]);

    let res = parse_str(&p, "").result.unwrap();
    assert_eq!(res, vec![]);

    let p = many_to_vec(num_parser(), false, no_separator());
    let res = parse_str(&p, "").result;
    assert!(res.is_none());
}

#[test]
fn many_nums() {
    let p = many(num_parser(), true, no_separator());
    let res = parse_str(&p, "1,2,3,4").result.unwrap();
    assert_eq!(res, cs("1,2,3,4"));

    let res = parse_str(&p, "").result.unwrap();
    assert_eq!(res, cs(""));

    let p = many(num_parser(), false, no_separator());
    let res = parse_str(&p, "").result;
    assert!(res.is_none());
}

#[test]
fn fold_add() {
    let p = fold(num_parser(), SumU32, false, no_separator());
    let res = parse_str(&p, "1,2,3,4,").result.unwrap();
    assert_eq!(res, 10);
}

#[test]
fn times_test() {
    let p = times(4, left(take('1'), take('2')));
    let res = parse_str(&p, "12121212End");
    assert_eq!(res.result.unwrap(), cs("12121212"));
    assert_eq!(res.state, "End");

    let res = parse_str(&p, "121212").result;
    assert!(res.is_none());
}

#[test]
fn greedy_or_test() {
    let x = "12344a";

    let digit_parser = item_while(IsAsciiDigit);
    let seq_parser = take(cs("1234"));

    let greedy_parser = greedy_or(seq_parser, digit_parser);

    let res = parse_str(&greedy_parser, x);
    assert_eq!(res.result.unwrap(), cs("12344"));
    assert_eq!(res.state, "a");

    let smaller_seq_parser = take(cs("123"));

    let full_parser = right(digit_parser, take(cs("a")));

    let greedy_parser = greedy_or(smaller_seq_parser, greedy_or(full_parser, take(cs("1234"))));
    let res = parse_str(&greedy_parser, x);
    assert_eq!(res.result.unwrap(), cs("a"));
    assert!(res.state.is_empty());
}

#[test]
fn recursive_parens() {
    let x = "(((((((((sought)))))))))";
    let chars: Vec<char> = x.chars().collect();

    let (pos, res) = anpa::expr::in_parens(&chars, 0);
    assert_eq!(res.unwrap(), cs("sought"));
    assert_eq!(pos, chars.len());
}

#[test]
fn greedy_or_tie_favours_first() {
    // Both alternatives consume two items; the first one's result wins.
    let p = greedy_or(take(cs("ab")), anpa::parsers::until('b'));
    let res = parse_str(&p, "ab");
    assert_eq!(res.result.unwrap(), cs("ab"));

    let p = greedy_or(anpa::parsers::until('b'), take(cs("ab")));
    let res = parse_str(&p, "ab");
    assert_eq!(res.result.unwrap(), cs("a"));
}

#[test]
fn or_backtracks_after_partial_consumption() {
    // The first alternative consumes three items and then fails; `or` must
    // attempt the second from the original start, while `or_no_partial`
    // must fail outright.
    let p1 = right(times(3, item()), failure());
    let p2 = skip('a');

    let p = or(p1, p2);
    let res = parse_str(&p, "abc");
    assert_eq!(res.result, Some(()));
    assert_eq!(res.state, "bc");

    let p = or_no_partial(p1, p2);
    let res = parse_str(&p, "abc");
    assert_eq!(res.result, None);
}

#[test]
fn many_trailing_separator() {
    // "1,2,3,4" parses fully; "1,2,3,4," fails outright because the final
    // separator is not followed by an element and trailing separators are
    // disallowed.
    let p = many(integer::<u32>(), false, separator(skip(','), false));
    let res = parse_str(&p, "1,2,3,4");
    assert_eq!(res.result.unwrap(), cs("1,2,3,4"));
    assert_eq!(res.state, "");

    let res = parse_str(&p, "1,2,3,4,");
    assert!(res.result.is_none());

    // With a trailing separator allowed, the same input parses.
    let p = many(integer::<u32>(), false, separator(skip(','), true));
    let res = parse_str(&p, "1,2,3,4,");
    assert_eq!(res.result.unwrap(), cs("1,2,3,4,"));
}

#[test]
fn bind_repeats_by_count() {
    // The parsed count decides how many items the continuation consumes.
    let p = bind(integer::<u32>(), RepeatCount);
    assert_eq!(parse_str(&p, "1xxx").result.unwrap(), cs("x"));
    assert_eq!(parse_str(&p, "3xxx").result.unwrap(), cs("xxx"));
    assert!(parse_str(&p, "xxx").result.is_none());
    assert!(parse_str(&p, "4xxx").result.is_none());
}

#[test]
fn or_diff_collapses_result_types() {
    let p = or_diff(integer::<u32>(), take(cs("abc")));
    assert_eq!(parse_str(&p, "abc123").result, Some(()));
    assert_eq!(parse_str(&p, "123abc").result, Some(()));
    assert_eq!(parse_str(&p, "a1b2c3").result, None);
}

#[test]
fn peek_consumes_nothing() {
    let p = peek(integer::<u32>());
    let res = parse_str(&p, "123");
    assert_eq!(res.result, Some(123));
    assert_eq!(res.state, "123");
}

#[test]
fn count_consumed_reports_length() {
    let p = count_consumed(integer::<u32>());
    let res = parse_str(&p, "1234x");
    assert_eq!(res.result, Some((4, 1234)));
    assert_eq!(res.state, "x");
}

#[test]
fn many_empty_input() {
    let p = many(integer::<u32>(), false, no_separator());
    assert!(parse_str(&p, "").result.is_none());

    let p = many(integer::<u32>(), true, no_separator());
    let res = parse_str(&p, "");
    assert_eq!(res.result.unwrap(), cs(""));
    assert_eq!(res.state, "");
}
