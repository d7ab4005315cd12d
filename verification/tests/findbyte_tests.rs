use anpa::findbyte::{eq, find_byte, gt, lt, ne, or_byte, until_byte};
use anpa::parse;

#[test]
fn less_than() {
    let arr = [9, 8, 7, 6, 5, 4, 3, 2, 1];
    let s: &[u8] = &arr;

    // Negative case
    let p = find_byte(or_byte(lt(1), eq(0)), true);
    let res = parse(&p, s);
    assert_eq!(res.result, None);
    assert_eq!(res.state, s);

    // Positive case with two matches. First should match
    let p = find_byte(or_byte(lt(3), lt(2)), true);
    let res = parse(&p, s);
    assert_eq!(res.result, Some(2));
    assert_eq!(res.state, &s[8..]);

    for i in 1_u8..arr.len() as u8 {
        let p = find_byte(or_byte(lt(i + 1), eq(i)), true);
        let res = parse(&p, s);
        assert_eq!(res.result, Some(i));
        assert_eq!(res.state, &s[arr.len() - (i - 1) as usize..]);
    }
}

#[test]
fn greater_than() {
    let arr = [1, 2, 3, 4, 5, 6, 7, 8, 9];
    let s: &[u8] = &arr;

    // Negative case
    let p = find_byte(or_byte(gt(9), eq(0)), true);
    let res = parse(&p, s);
    assert_eq!(res.result, None);
    assert_eq!(res.state, s);

    // Positive case with two matches. First should match
    let p = find_byte(or_byte(gt(7), gt(8)), true);
    let res = parse(&p, s);
    assert_eq!(res.result, Some(8));
    assert_eq!(res.state, &s[8..]);

    for i in 1_u8..arr.len() as u8 {
        let p = find_byte(or_byte(gt(i - 1), eq(i)), true);
        let res = parse(&p, s);
        assert_eq!(res.result, Some(i));
        assert_eq!(res.state, &s[i as usize..]);
    }
}

#[test]
fn equals() {
    let target = 0x10_u8;
    let arr = [9, 8, 7, 6, 5, 4, 3, 2, 1];
    let s: &[u8] = &arr;
    let p = find_byte(eq(target), true);

    // Negative case
    let res = parse(&p, s);
    assert_eq!(res.result, None);
    assert_eq!(res.state, s);

    // Positive case with two matches. First should match
    let arr2 = [9, 8, 7, target, target, 4, 3, 2, 1];
    let s: &[u8] = &arr2;
    let res = parse(&p, s);
    assert_eq!(res.result, Some(target));
    assert_eq!(res.state, &[target, 4, 3, 2, 1]);

    // Exhaustive position
    for i in 1..s.len() {
        let p = find_byte(eq(target), true);
        let mut tmp_arr = arr;
        tmp_arr[i] = target;
        let s: &[u8] = &tmp_arr;
        let res = parse(&p, s);
        assert_eq!(res.result, Some(target));
        assert_eq!(res.state, &tmp_arr[i + 1..]);
    }
}

#[test]
fn not_equals() {
    let avoid = 10_u8;
    let arr = [avoid; 9];
    let s: &[u8] = &arr;
    let p = find_byte(ne(avoid), true);

    // Negative case
    let res = parse(&p, s);
    assert_eq!(res.result, None);
    assert_eq!(res.state, s);

    // Positive case with two matches. First should match
    let mut arr2 = arr;
    arr2[6] = 1;
    arr2[7] = 1;
    let s: &[u8] = &arr2;
    let res = parse(&p, s);
    assert_eq!(res.result, Some(1));
    assert_eq!(res.state, &[1, avoid]);

    // Exhaustive position
    for i in 1..s.len() {
        let p = find_byte(ne(avoid), true);
        let mut tmp_arr = arr;
        tmp_arr[i] = 1;
        let s: &[u8] = &tmp_arr;
        let res = parse(&p, s);
        assert_eq!(res.result, Some(1));
        assert_eq!(res.state, &tmp_arr[i + 1..]);
    }
}

#[test]
fn byte_slice() {
    let s: &[u8] = &[5, 4, 3, 2, 1, 1, 1, 1];

    let p = find_byte(or_byte(eq(2), eq(4)), true);
    let res = parse(&p, s);
    assert_eq!(res.result, Some(4));
    assert_eq!(res.state, &[3, 2, 1, 1, 1, 1]);

    let p = find_byte(or_byte(eq(2), eq(4)), false);
    let res = parse(&p, s);
    assert_eq!(res.result, Some(4));
    assert_eq!(res.state, &[4, 3, 2, 1, 1, 1, 1]);

    let p = find_byte(or_byte(eq(3), lt(5)), true);
    let res = parse(&p, s);
    assert_eq!(res.result, Some(4));
    assert_eq!(res.state, &[3, 2, 1, 1, 1, 1]);
}

#[test]
fn find_byte_matches_naive_scan() {
    // The word-stepping search agrees with a byte-at-a-time scan, over
    // every buffer prefix spanning none, some, and a few full words.
    let base: Vec<u8> = (0u8..31).map(|i| (i * 37) % 101).collect();
    for len in 0..=base.len() {
        let buf = &base[..len];
        for c in [0u8, 1, 36, 37, 73, 100, 127, 128] {
            for mode in 0..4 {
                let (fast, naive): (Option<(u8, usize)>, Option<usize>) = match mode {
                    0 => (
                        run_find(&buf, find_byte(eq(c), true)),
                        buf.iter().position(|&b| b == c),
                    ),
                    1 => (
                        run_find(&buf, find_byte(ne(c), true)),
                        buf.iter().position(|&b| b != c),
                    ),
                    2 => (
                        run_find(&buf, find_byte(lt(c), true)),
                        buf.iter().position(|&b| b < c),
                    ),
                    _ => (
                        run_find(&buf, find_byte(or_byte(eq(c), lt(c)), true)),
                        buf.iter().position(|&b| b <= c),
                    ),
                };
                assert_eq!(fast.map(|(_, at)| at), naive);
                if let Some((b, at)) = fast {
                    assert_eq!(b, buf[at]);
                }
            }
        }
    }
}

fn run_find<F: anpa::findbyte::ByteFinder>(
    buf: &[u8],
    p: anpa::findbyte::FindByte<F>,
) -> Option<(u8, usize)> {
    let res = parse(&p, buf);
    res.result.map(|b| (b, buf.len() - res.state.len() - 1))
}

#[test]
fn ne_word_formula_blind_spot() {
    // The inequality formula misses a byte that differs from the sought-out
    // byte only in its lowest bit when it directly follows a run of that
    // byte within one word: here the word holds 10,11,10,... and ne(10)
    // reports no match even though index 1 differs. The byte-at-a-time
    // remainder path is exact, so the same bytes are found once the buffer
    // is too short for a full word.
    let s: &[u8] = &[10, 11, 10, 10, 10, 10, 10, 10];
    let res = parse(&find_byte(ne(10), true), s);
    assert_eq!(res.result, None);

    let short = &s[..7];
    let res = parse(&find_byte(ne(10), true), short);
    assert_eq!(res.result, Some(11));
}

#[test]
fn until_byte_progress() {
    // After a successful search that consumed its match, the same search on
    // the remainder only ever finds a strictly later byte.
    let s: &[u8] = &[1, 2, 9, 3, 4, 9, 5];
    let p = until_byte(eq(9), false, true);
    let first = parse(&p, s);
    assert_eq!(first.result.unwrap(), [1, 2].as_slice());
    assert_eq!(first.state, &[3, 4, 9, 5]);

    let second = parse(&p, first.state);
    assert_eq!(second.result.unwrap(), [3, 4].as_slice());
    assert_eq!(second.state, &[5]);
}

#[test]
fn until_byte_keeps_match_when_asked() {
    let s: &[u8] = &[1, 2, 9, 3];
    let p = until_byte(eq(9), true, true);
    let res = parse(&p, s);
    assert_eq!(res.result.unwrap(), [1, 2, 9].as_slice());
    assert_eq!(res.state, &[3]);

    let p = until_byte(eq(9), false, false);
    let res = parse(&p, s);
    assert_eq!(res.result.unwrap(), [1, 2].as_slice());
    assert_eq!(res.state, &[9, 3]);
}
