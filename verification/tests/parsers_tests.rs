use anpa::parse_str;
use anpa::parsers::{item_while, until, IsAsciiDigit, ItemIs};

fn cs(s: &str) -> Vec<char> {
    s.chars().collect()
}

#[test]
fn take_while_test() {
    let p = item_while(ItemIs('x'));
    let res = parse_str(&p, "xxxxy");
    assert_eq!(res.result.unwrap(), cs("xxxx"));
    assert_eq!(res.state, "y");

    let p = item_while(IsAsciiDigit);
    assert_eq!(parse_str(&p, "1234abcd").result.unwrap(), cs("1234"));
}

#[test]
fn until_test() {
    let p = until('x');
    let res = parse_str(&p, "xxxxy");
    assert_eq!(res.result.unwrap(), cs(""));
    assert_eq!(res.state, "xxxy");

    let p = until(cs("xxx"));
    let res = parse_str(&p, "xxxxy");
    assert_eq!(res.result.unwrap(), cs(""));
    assert_eq!(res.state, "xy");

    let p = until(cs("y"));
    let res = parse_str(&p, "xxxxy");
    assert_eq!(res.result.unwrap(), cs("xxxx"));
    assert_eq!(res.state, "");
}
