use anpa::parse;
use anpa::parse_str;
use anpa::whitespace::{ascii_whitespace, skip_ascii_whitespace, skip_whitespace, whitespace};

#[test]
fn test_whitespace_u8() {
    let input = &[b' ', b' ', 1, 2];
    let res = parse(&skip_ascii_whitespace(), input.as_slice());
    assert_eq!(res.result, Some(()));
    assert_eq!(res.state, &[1, 2]);

    let res = parse(&ascii_whitespace(), input.as_slice());
    assert_eq!(res.result.unwrap(), [b' ', b' '].as_slice());
    assert_eq!(res.state, &[1, 2]);
}

#[test]
fn test_whitespace_u8_nothing() {
    let input = &[1, 2];
    let res = parse(&skip_ascii_whitespace(), input.as_slice());
    assert_eq!(res.result, Some(()));
    assert_eq!(res.state, &[1, 2]);

    let res = parse(&ascii_whitespace(), input.as_slice());
    assert_eq!(res.result.unwrap(), [].as_slice());
    assert_eq!(res.state, &[1, 2]);
}

#[test]
fn test_whitespace_char() {
    let input = &[' ', ' ', '1', '2'];
    let res = parse(&skip_ascii_whitespace(), input.as_slice());
    assert_eq!(res.result, Some(()));
    assert_eq!(res.state, &['1', '2']);

    let res = parse(&ascii_whitespace(), input.as_slice());
    assert_eq!(res.result.unwrap(), [' ', ' '].as_slice());
    assert_eq!(res.state, &['1', '2']);
}

#[test]
fn test_whitespace_str() {
    let input = "  12";
    let res = parse_str(&skip_ascii_whitespace(), input);
    assert_eq!(res.result, Some(()));
    assert_eq!(res.state, "12");

    let res = parse_str(&ascii_whitespace(), input);
    assert_eq!(res.result.unwrap(), "  ".chars().collect::<Vec<char>>());
    assert_eq!(res.state, "12");
}

#[test]
fn test_whitespace_unicode() {
    // U+00A0 and U+2003 carry the Unicode White_Space property but are not
    // ASCII whitespace, so only the Unicode parsers consume them.
    let input = "\u{a0}\u{2003}x";
    let res = parse_str(&skip_whitespace(), input);
    assert_eq!(res.result, Some(()));
    assert_eq!(res.state, "x");

    let res = parse_str(&whitespace(), input);
    assert_eq!(res.result.unwrap(), "\u{a0}\u{2003}".chars().collect::<Vec<char>>());
    assert_eq!(res.state, "x");

    let res = parse_str(&skip_ascii_whitespace(), input);
    assert_eq!(res.result, Some(()));
    assert_eq!(res.state, "\u{a0}\u{2003}x");
}
