use divedns::decimal::{char_of_digit, digit_of, parse_number, push_decimal};
use divedns::util::{Bound, Range, RangeParseError};

fn chars(s: &str) -> Vec<char> {
    s.chars().collect()
}

#[test]
fn includes_with_both_ends_inclusive() {
    let r = Range::new(Bound::Include(2), Bound::Include(5));
    assert!(!r.includes(&1));
    assert!(r.includes(&2));
    assert!(r.includes(&3));
    assert!(r.includes(&4));
    assert!(r.includes(&5));
    assert!(!r.includes(&6));
}

#[test]
fn includes_with_exclusive_end() {
    let r = Range::new(Bound::Include(2), Bound::Exclude(5));
    assert!(!r.includes(&1));
    assert!(r.includes(&2));
    assert!(r.includes(&3));
    assert!(r.includes(&4));
    assert!(!r.includes(&5));
    assert!(!r.includes(&6));
}

#[test]
fn includes_with_exclusive_start() {
    let r = Range::new(Bound::Exclude(2), Bound::Include(5));
    assert!(!r.includes(&1));
    assert!(!r.includes(&2));
    assert!(r.includes(&3));
    assert!(r.includes(&4));
    assert!(r.includes(&5));
    assert!(!r.includes(&6));
}

#[test]
fn includes_with_both_ends_exclusive() {
    let r = Range::new(Bound::Exclude(2), Bound::Exclude(5));
    assert!(!r.includes(&1));
    assert!(!r.includes(&2));
    assert!(r.includes(&3));
    assert!(r.includes(&4));
    assert!(!r.includes(&5));
    assert!(!r.includes(&6));
}

#[test]
fn crossed_range_includes_nothing() {
    let r = Range::new(Bound::Include(5), Bound::Include(2));
    for v in 0..8usize {
        assert!(!r.includes(&v));
    }
    let point = Range::new(Bound::Exclude(3), Bound::Exclude(4));
    assert!(!point.includes(&3));
    assert!(!point.includes(&4));
}

#[test]
fn includes_at_the_limits_of_usize() {
    let all = Range::new(Bound::Include(0), Bound::Include(usize::MAX));
    assert!(all.includes(&0));
    assert!(all.includes(&usize::MAX));
    let open = Range::new(Bound::Exclude(0), Bound::Exclude(usize::MAX));
    assert!(!open.includes(&0));
    assert!(open.includes(&1));
    assert!(!open.includes(&usize::MAX));
}

#[test]
fn new_keeps_both_bounds() {
    let r = Range::new(Bound::Exclude(7), Bound::Include(9));
    assert_eq!(r.start, Bound::Exclude(7));
    assert_eq!(r.end, Bound::Include(9));
}

#[test]
fn from_str_half_open_range() {
    let r = Range::from_str("(1..3]").unwrap();
    assert_eq!(r, Range { start: Bound::Exclude(1), end: Bound::Include(3) });
    assert!(r.includes(&2));
    assert!(!r.includes(&1));
    assert!(r.includes(&3));
}

#[test]
fn from_str_all_bracket_pairs() {
    assert_eq!(
        Range::from_str("[1..3]"),
        Ok(Range::new(Bound::Include(1), Bound::Include(3)))
    );
    assert_eq!(
        Range::from_str("[1..3)"),
        Ok(Range::new(Bound::Include(1), Bound::Exclude(3)))
    );
    assert_eq!(
        Range::from_str("(1..3]"),
        Ok(Range::new(Bound::Exclude(1), Bound::Include(3)))
    );
    assert_eq!(
        Range::from_str("(1..3)"),
        Ok(Range::new(Bound::Exclude(1), Bound::Exclude(3)))
    );
}

#[test]
fn from_str_without_brackets_is_inclusive() {
    assert_eq!(
        Range::from_str("1..3"),
        Ok(Range::new(Bound::Include(1), Bound::Include(3)))
    );
    assert_eq!(
        Range::from_str("(4..12"),
        Ok(Range::new(Bound::Exclude(4), Bound::Include(12)))
    );
    assert_eq!(
        Range::from_str("4..12)"),
        Ok(Range::new(Bound::Include(4), Bound::Exclude(12)))
    );
}

#[test]
fn from_str_accepts_a_plus_sign_and_leading_zeros() {
    assert_eq!(
        Range::from_str("[+1..007]"),
        Ok(Range::new(Bound::Include(1), Bound::Include(7)))
    );
}

#[test]
fn from_str_rejects_wrong_number_of_parts() {
    assert_eq!(Range::from_str(""), Err(RangeParseError::InvalidFormat));
    assert_eq!(Range::from_str("[]"), Err(RangeParseError::InvalidFormat));
    assert_eq!(Range::from_str("5"), Err(RangeParseError::InvalidFormat));
    assert_eq!(Range::from_str("[1.3]"), Err(RangeParseError::InvalidFormat));
    assert_eq!(Range::from_str("[1..2..3]"), Err(RangeParseError::InvalidFormat));
    assert_eq!(Range::from_str("1....3"), Err(RangeParseError::InvalidFormat));
}

#[test]
fn from_str_rejects_parts_that_are_no_numbers() {
    assert_eq!(Range::from_str(".."), Err(RangeParseError::InvalidNumber));
    assert_eq!(Range::from_str("[1..]"), Err(RangeParseError::InvalidNumber));
    assert_eq!(Range::from_str("[..3]"), Err(RangeParseError::InvalidNumber));
    assert_eq!(Range::from_str("[a..3]"), Err(RangeParseError::InvalidNumber));
    assert_eq!(Range::from_str("[1..b]"), Err(RangeParseError::InvalidNumber));
    assert_eq!(Range::from_str("[-1..3]"), Err(RangeParseError::InvalidNumber));
    assert_eq!(Range::from_str("[1...3]"), Err(RangeParseError::InvalidNumber));
    assert_eq!(Range::from_str("[ 1..3]"), Err(RangeParseError::InvalidNumber));
    assert_eq!(Range::from_str("[+..3]"), Err(RangeParseError::InvalidNumber));
}

#[test]
fn from_str_rejects_numbers_that_do_not_fit() {
    assert_eq!(
        Range::from_str("[1..340282366920938463463374607431768211456]"),
        Err(RangeParseError::InvalidNumber)
    );
    let max = format!("[0..{}]", usize::MAX);
    assert_eq!(
        Range::from_str(&max),
        Ok(Range::new(Bound::Include(0), Bound::Include(usize::MAX)))
    );
}

#[test]
fn from_str_strips_one_bracket_on_each_side() {
    assert_eq!(Range::from_str("((1..3))"), Err(RangeParseError::InvalidNumber));
    assert_eq!(Range::from_str("]1..3["), Err(RangeParseError::InvalidNumber));
}

#[test]
fn from_chars_agrees_with_from_str() {
    assert_eq!(Range::from_chars(&chars("(10..20)")), Range::from_str("(10..20)"));
    assert_eq!(Range::from_chars(&chars("x")), Range::from_str("x"));
}

#[test]
fn to_text_writes_the_brackets() {
    assert_eq!(Range::new(Bound::Include(1), Bound::Include(3)).to_text(), "[1..3]");
    assert_eq!(Range::new(Bound::Include(1), Bound::Exclude(3)).to_text(), "[1..3)");
    assert_eq!(Range::new(Bound::Exclude(1), Bound::Include(3)).to_text(), "(1..3]");
    assert_eq!(Range::new(Bound::Exclude(10), Bound::Exclude(205)).to_text(), "(10..205)");
    assert_eq!(Range::new(Bound::Include(0), Bound::Include(0)).to_text(), "[0..0]");
}

#[test]
fn text_round_trip() {
    let values = [0usize, 1, 9, 10, 99, 100, 12345, usize::MAX];
    for &a in values.iter() {
        for &b in values.iter() {
            let ranges = [
                Range::new(Bound::Include(a), Bound::Include(b)),
                Range::new(Bound::Include(a), Bound::Exclude(b)),
                Range::new(Bound::Exclude(a), Bound::Include(b)),
                Range::new(Bound::Exclude(a), Bound::Exclude(b)),
            ];
            for r in ranges.iter() {
                assert_eq!(Range::from_str(&r.to_text()), Ok(*r));
            }
        }
    }
}

#[test]
fn parse_number_reads_part_of_the_characters() {
    let v = chars("ab123cd");
    assert_eq!(parse_number(&v, 2, 5), Some(123));
    assert_eq!(parse_number(&v, 2, 3), Some(1));
    assert_eq!(parse_number(&v, 2, 2), None);
    assert_eq!(parse_number(&v, 1, 5), None);
    assert_eq!(parse_number(&v, 2, 6), None);
    let plus = chars("+42");
    assert_eq!(parse_number(&plus, 0, 3), Some(42));
    assert_eq!(parse_number(&plus, 0, 1), None);
    let twice = chars("++4");
    assert_eq!(parse_number(&twice, 0, 3), None);
}

#[test]
fn parse_number_at_the_limit() {
    let max = chars(&usize::MAX.to_string());
    assert_eq!(parse_number(&max, 0, max.len()), Some(usize::MAX));
    let mut over = max.clone();
    over.push('0');
    assert_eq!(parse_number(&over, 0, over.len()), None);
    let zeros = chars("0000000000000000000000000000000000000001");
    assert_eq!(parse_number(&zeros, 0, zeros.len()), Some(1));
}

#[test]
fn push_decimal_appends() {
    let mut out = String::from("n=");
    push_decimal(&mut out, 0);
    assert_eq!(out, "n=0");
    push_decimal(&mut out, 907);
    assert_eq!(out, "n=0907");
    let mut max = String::new();
    push_decimal(&mut max, usize::MAX);
    assert_eq!(max, usize::MAX.to_string());
}

#[test]
fn digits_and_their_values() {
    assert_eq!(digit_of('0'), Some(0));
    assert_eq!(digit_of('9'), Some(9));
    assert_eq!(digit_of('/'), None);
    assert_eq!(digit_of(':'), None);
    assert_eq!(digit_of('a'), None);
    assert_eq!(char_of_digit(0), '0');
    assert_eq!(char_of_digit(7), '7');
    assert_eq!(char_of_digit(9), '9');
}

#[test]
fn includes_over_other_ordered_types() {
    let letters = Range::new(Bound::Include('b'), Bound::Exclude('e'));
    assert!(!letters.includes(&'a'));
    assert!(letters.includes(&'b'));
    assert!(letters.includes(&'d'));
    assert!(!letters.includes(&'e'));
    let words = Range::new(
        Bound::Exclude(String::from("apple")),
        Bound::Include(String::from("pear")),
    );
    assert!(!words.includes(&String::from("apple")));
    assert!(words.includes(&String::from("fig")));
    assert!(words.includes(&String::from("pear")));
    assert!(!words.includes(&String::from("plum")));
    let signed = Range::new(Bound::Exclude(-3i64), Bound::Exclude(3i64));
    assert!(!signed.includes(&-3));
    assert!(signed.includes(&-2));
    assert!(signed.includes(&2));
    assert!(!signed.includes(&3));
}

#[test]
fn bound_to_text_writes_the_value_alone() {
    assert_eq!(Bound::Include(12usize).to_text(), "12");
    assert_eq!(Bound::Exclude(12usize).to_text(), "12");
    assert_eq!(Bound::Include(0usize).to_text(), "0");
}
