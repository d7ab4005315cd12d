use anpa::expr::eval;

#[test]
fn expression_evaluation() {
    assert_eq!(eval("-12"), Some(-12));
    assert_eq!(eval("12"), Some(12));
    assert_eq!(eval("12+24"), Some(36));
    assert_eq!(eval("2*12+24"), Some(48));
    assert_eq!(eval("(24/3-2-(3+2)-4*3/2)*5"), Some(-25));
}

#[test]
fn expression_precedence_and_associativity() {
    assert_eq!(eval("2+3*4"), Some(14));
    assert_eq!(eval("100-10-10"), Some(80));
    assert_eq!(eval("100/10/5"), Some(2));
    assert_eq!(eval("-7/2"), Some(-3));
}

#[test]
fn expression_division_by_zero_fails() {
    assert_eq!(eval("1/0"), None);
    assert_eq!(eval("(1/0)+5"), None);
    // A division failure in a later additive step stops the fold with the
    // value accumulated so far, as the chain pattern prescribes.
    assert_eq!(eval("5+3/(2-2)"), Some(5));
}

#[test]
fn expression_failure() {
    assert_eq!(eval("x+1"), None);
    assert_eq!(eval("()"), None);
}
