//! Ranges over an ordered type with inclusive or exclusive ends; for ranges
//! of `usize`, their bracket notation and the reader of that notation.

use vstd::prelude::*;
use vstd::std_specs::cmp::{PartialOrdIs, PartialOrdSpec};
use crate::chars::chars_of;
use crate::decimal::{
    decimal, is_digit, lemma_decimal_denotes, number_of, parse_number, push_decimal,
    unsigned_part,
};

verus! {

/// One end of a range: the value itself belongs to the range (`Include`) or
/// does not (`Exclude`).
#[derive(Clone, Copy, Debug, PartialEq, Eq)]
pub enum Bound<T: Ord> {
    Include(T),
    Exclude(T),
}

impl<T: Ord> Bound<T> {
    /// The value at this end.
    pub open spec fn value(self) -> T {
        match self {
            Bound::Include(v) => v,
            Bound::Exclude(v) => v,
        }
    }

    /// This end excludes its own value.
    pub open spec fn is_exclusive(self) -> bool {
        self is Exclude
    }

    /// As a lower end, this bound admits `v`: its value lies below `v`, or
    /// is `v` where the bound is inclusive.
    pub open spec fn admits_above(self, v: T) -> bool {
        match self {
            Bound::Include(a) => a.is_le(&v),
            Bound::Exclude(a) => a.is_lt(&v),
        }
    }

    /// As an upper end, this bound admits `v`: its value lies above `v`, or
    /// is `v` where the bound is inclusive.
    pub open spec fn admits_below(self, v: T) -> bool {
        match self {
            Bound::Include(b) => v.is_le(&b),
            Bound::Exclude(b) => v.is_lt(&b),
        }
    }
}

/// A lower and an upper bound. Nothing asks that the lower lie below the
/// upper: a range whose ends cross holds no value.
#[derive(Clone, Copy, Debug, PartialEq, Eq)]
pub struct Range<T: Ord = usize> {
    pub start: Bound<T>,
    pub end: Bound<T>,
}

/// Why a text is no range.
#[derive(Clone, Copy, Debug, PartialEq, Eq, Structural)]
pub enum RangeParseError {
    /// Between the brackets the text does not split on `..` into exactly two
    /// parts.
    InvalidFormat,
    /// One of the two parts is no unsigned number that fits.
    InvalidNumber,
}

/// `c` opens a range.
pub open spec fn is_opening(c: char) -> bool {
    c == '[' || c == '('
}

/// `c` closes a range.
pub open spec fn is_closing(c: char) -> bool {
    c == ']' || c == ')'
}

/// `s` without one opening bracket at its head and, of what is left, without
/// one closing bracket at its end.
pub open spec fn body_of(s: Seq<char>) -> Seq<char> {
    let t = if s.len() > 0 && is_opening(s[0]) {
        s.subrange(1, s.len() as int)
    } else {
        s
    };
    if t.len() > 0 && is_closing(t.last()) {
        t.drop_last()
    } else {
        t
    }
}

/// Two dots stand at `i` and `i + 1`.
pub open spec fn sep_at(s: Seq<char>, i: int) -> bool {
    0 <= i && i + 1 < s.len() && s[i] == '.' && s[i + 1] == '.'
}

/// `s` holds two dots in a row.
pub open spec fn has_sep(s: Seq<char>) -> bool {
    exists|i: int| sep_at(s, i)
}

/// Two dots stand at `i`, and no two dots in a row start before it.
pub open spec fn is_first_sep(s: Seq<char>, i: int) -> bool {
    sep_at(s, i) && forall|j: int| 0 <= j < i ==> !sep_at(s, j)
}

/// Where the first two dots in a row start.
pub open spec fn first_sep(s: Seq<char>) -> int {
    choose|i: int| is_first_sep(s, i)
}

/// What a text means as a range. The body between the brackets is split on
/// `..`, from the left and without overlap: it must fall into exactly two
/// parts, each an unsigned number. The first character of the whole text
/// decides the lower end (`(` excludes), the last one the upper end (`)`
/// excludes).
pub open spec fn parse_outcome(s: Seq<char>) -> Result<Range, RangeParseError> {
    let body = body_of(s);
    if !has_sep(body) {
        Err(RangeParseError::InvalidFormat)
    } else {
        let i = first_sep(body);
        let tail = body.subrange(i + 2, body.len() as int);
        if has_sep(tail) {
            Err(RangeParseError::InvalidFormat)
        } else {
            match (number_of(body.subrange(0, i)), number_of(tail)) {
                (Some(a), Some(b)) => Ok(
                    Range {
                        start: if s.len() > 0 && s[0] == '(' {
                            Bound::Exclude(a)
                        } else {
                            Bound::Include(a)
                        },
                        end: if s.len() > 0 && s.last() == ')' {
                            Bound::Exclude(b)
                        } else {
                            Bound::Include(b)
                        },
                    },
                ),
                _ => Err(RangeParseError::InvalidNumber),
            }
        }
    }
}

/// There is one first pair of dots at most.
pub proof fn lemma_first_sep_is(s: Seq<char>, i: int)
    requires
        is_first_sep(s, i),
    ensures
        has_sep(s),
        first_sep(s) == i,
{
    let k = first_sep(s);
    assert(is_first_sep(s, k));
    if k < i {
        assert(!sep_at(s, k));
    }
    if i < k {
        assert(!sep_at(s, i));
    }
}

/// The first pair of dots among the characters of `v` from `from` up to
/// `to`, as an index into `v`.
fn find_sep(v: &Vec<char>, from: usize, to: usize) -> (r: Option<usize>)
    requires
        from <= to <= v.len(),
    ensures
        match r {
            Some(i) => from <= i && i + 2 <= to && is_first_sep(
                v@.subrange(from as int, to as int),
                i - from,
            ),
            None => !has_sep(v@.subrange(from as int, to as int)),
        },
{
    let ghost s = v@.subrange(from as int, to as int);
    let mut i: usize = from;
    while to - i >= 2
        invariant
            from <= i <= to <= v.len(),
            s == v@.subrange(from as int, to as int),
            forall|j: int| 0 <= j < i - from ==> !sep_at(s, j),
        decreases to - i,
    {
        if v[i] == '.' && v[i + 1] == '.' {
            assert(sep_at(s, i - from));
            return Some(i);
        }
        assert(!sep_at(s, i - from));
        i += 1;
    }
    assert forall|j: int| !sep_at(s, j) by {
        if 0 <= j && j + 1 < s.len() {
            assert(j < i - from);
        }
    }
    None
}

impl<T: Ord> Range<T> {
    /// `value` lies within both ends.
    pub open spec fn contains(self, value: T) -> bool {
        self.start.admits_above(value) && self.end.admits_below(value)
    }

    /// The range from `start` to `end`, whatever their order.
    pub fn new(start: Bound<T>, end: Bound<T>) -> (r: Self)
        ensures
            r == (Range { start, end }),
    {
        Range { start, end }
    }

    /// Whether `value` lies in the range, by the order of `T`. The answer is
    /// stated for every type whose comparisons do what its order says.
    pub fn includes(&self, value: &T) -> (r: bool)
        ensures
            T::obeys_partial_cmp_spec() ==> r == self.contains(*value),
    {
        match (&self.start, &self.end) {
            (Bound::Include(start), Bound::Include(end)) => *start <= *value && *value <= *end,
            (Bound::Include(start), Bound::Exclude(end)) => *start <= *value && *value < *end,
            (Bound::Exclude(start), Bound::Include(end)) => *start < *value && *value <= *end,
            (Bound::Exclude(start), Bound::Exclude(end)) => *start < *value && *value < *end,
        }
    }
}

impl Bound<usize> {
    /// Writes the value at this end, in decimal and without a bracket: the
    /// kind of the end shows only in the notation of a range.
    pub fn to_text(&self) -> (r: String)
        ensures
            r@ == decimal(self.value() as nat),
    {
        let value: usize = match self {
            Bound::Include(v) => *v,
            Bound::Exclude(v) => *v,
        };
        let mut out = String::new();
        push_decimal(&mut out, value);
        out
    }
}

impl Range<usize> {
    /// The bracket notation of the range: `[` or `(`, the lower value, `..`,
    /// the upper value, `]` or `)`; a round bracket excludes.
    pub open spec fn text(self) -> Seq<char> {
        seq![if self.start.is_exclusive() { '(' } else { '[' }] + decimal(self.start.value() as nat)
            + seq!['.', '.'] + decimal(self.end.value() as nat) + seq![
            if self.end.is_exclusive() {
                ')'
            } else {
                ']'
            },
        ]
    }

    /// Writes the range in bracket notation.
    pub fn to_text(&self) -> (r: String)
        ensures
            r@ == self.text(),
    {
        let mut out = String::new();
        let (open, low): (&str, usize) = match self.start {
            Bound::Include(v) => ("[", v),
            Bound::Exclude(v) => ("(", v),
        };
        let (close, high): (&str, usize) = match self.end {
            Bound::Include(v) => ("]", v),
            Bound::Exclude(v) => (")", v),
        };
        proof {
            reveal_strlit("[");
            reveal_strlit("(");
            reveal_strlit("]");
            reveal_strlit(")");
            reveal_strlit("..");
        }
        out.append(open);
        push_decimal(&mut out, low);
        out.append("..");
        push_decimal(&mut out, high);
        out.append(close);
        assert(open@ == seq![if self.start.is_exclusive() { '(' } else { '[' }]);
        assert(close@ == seq![if self.end.is_exclusive() { ')' } else { ']' }]);
        assert(".."@ == seq!['.', '.']);
        assert(out@ == self.text());
        out
    }

    /// Reads a range from its text.
    pub fn from_str(s: &str) -> (r: Result<Range, RangeParseError>)
        ensures
            r == parse_outcome(s@),
    {
        let v = chars_of(s);
        Range::from_chars(&v)
    }

    /// Reads a range from the characters of its text.
    pub fn from_chars(v: &Vec<char>) -> (r: Result<Range, RangeParseError>)
        ensures
            r == parse_outcome(v@),
    {
        let n: usize = v.len();
        let lo: usize = if n > 0 && (v[0] == '[' || v[0] == '(') {
            1
        } else {
            0
        };
        let hi: usize = if n > lo && (v[n - 1] == ']' || v[n - 1] == ')') {
            n - 1
        } else {
            n
        };
        let ghost body = body_of(v@);
        assert(body == v@.subrange(lo as int, hi as int));
        let i: usize = match find_sep(v, lo, hi) {
            Some(i) => i,
            None => {
                return Err(RangeParseError::InvalidFormat);
            },
        };
        proof {
            lemma_first_sep_is(body, i - lo);
        }
        let ghost tail = body.subrange(i - lo + 2, body.len() as int);
        assert(tail == v@.subrange(i + 2, hi as int));
        assert(body.subrange(0, i - lo) == v@.subrange(lo as int, i as int));
        if let Some(k) = find_sep(v, i + 2, hi) {
            assert(sep_at(tail, k - (i + 2)));
            return Err(RangeParseError::InvalidFormat);
        }
        let low: usize = match parse_number(v, lo, i) {
            Some(low) => low,
            None => {
                return Err(RangeParseError::InvalidNumber);
            },
        };
        let high: usize = match parse_number(v, i + 2, hi) {
            Some(high) => high,
            None => {
                return Err(RangeParseError::InvalidNumber);
            },
        };
        let start = if v[0] == '(' {
            Bound::Exclude(low)
        } else {
            Bound::Include(low)
        };
        let end = if v[n - 1] == ')' {
            Bound::Exclude(high)
        } else {
            Bound::Include(high)
        };
        Ok(Range::new(start, end))
    }
}

/// Membership follows the kinds of both ends, in any ordered type: with two
/// inclusive ends a value belongs when it is neither below the lower value
/// nor above the upper one; an exclusive end leaves its own value out.
pub proof fn lemma_includes_by_bounds<T: Ord>(a: T, b: T, v: T)
    ensures
        (Range { start: Bound::Include(a), end: Bound::Include(b) }).contains(v) <==> a.is_le(&v)
            && v.is_le(&b),
        (Range { start: Bound::Include(a), end: Bound::Exclude(b) }).contains(v) <==> a.is_le(&v)
            && v.is_lt(&b),
        (Range { start: Bound::Exclude(a), end: Bound::Include(b) }).contains(v) <==> a.is_lt(&v)
            && v.is_le(&b),
        (Range { start: Bound::Exclude(a), end: Bound::Exclude(b) }).contains(v) <==> a.is_lt(&v)
            && v.is_lt(&b),
{
}

/// Among numbers, membership follows the brackets at both ends: with two
/// inclusive ends a value belongs when `a <= v <= b`, an exclusive lower end
/// turns the first comparison strict, an exclusive upper end the second.
pub proof fn lemma_includes_by_brackets(a: usize, b: usize, v: usize)
    ensures
        usize::obeys_partial_cmp_spec(),
        (Range { start: Bound::Include(a), end: Bound::Include(b) }).contains(v) <==> a <= v <= b,
        (Range { start: Bound::Include(a), end: Bound::Exclude(b) }).contains(v) <==> a <= v < b,
        (Range { start: Bound::Exclude(a), end: Bound::Include(b) }).contains(v) <==> a < v <= b,
        (Range { start: Bound::Exclude(a), end: Bound::Exclude(b) }).contains(v) <==> a < v < b,
{
}

/// A range whose lower value lies above its upper value holds nothing.
pub proof fn lemma_crossed_range_is_empty(r: Range<usize>, v: usize)
    requires
        r.start.value() > r.end.value(),
    ensures
        !r.contains(v),
{
}

/// A number holds no dot.
proof fn lemma_number_holds_no_dot(a: Seq<char>, j: int)
    requires
        number_of(a) is Some,
        0 <= j < a.len(),
    ensures
        a[j] != '.',
{
    let d = unsigned_part(a);
    if a[0] == '+' {
        if j > 0 {
            assert(is_digit(d[j - 1]));
        }
    } else {
        assert(is_digit(d[j]));
    }
}

/// A text is a range wherever its body is two numbers with `..` between
/// them: the range has those two values, and its ends follow the first and
/// the last character of the text.
pub proof fn lemma_two_numbers_make_a_range(s: Seq<char>, a: Seq<char>, b: Seq<char>)
    requires
        body_of(s) == a + seq!['.', '.'] + b,
        number_of(a) is Some,
        number_of(b) is Some,
    ensures
        parse_outcome(s) == Ok::<Range, RangeParseError>(
            Range {
                start: if s[0] == '(' {
                    Bound::Exclude(number_of(a).unwrap())
                } else {
                    Bound::Include(number_of(a).unwrap())
                },
                end: if s.last() == ')' {
                    Bound::Exclude(number_of(b).unwrap())
                } else {
                    Bound::Include(number_of(b).unwrap())
                },
            },
        ),
{
    let body = body_of(s);
    let i = a.len() as int;
    assert(body.len() == a.len() + b.len() + 2);
    assert(body[i] == '.' && body[i + 1] == '.');
    assert forall|j: int| 0 <= j < i implies !sep_at(body, j) by {
        assert(body[j] == a[j]);
        lemma_number_holds_no_dot(a, j);
    }
    lemma_first_sep_is(body, i);
    let tail = body.subrange(i + 2, body.len() as int);
    assert(tail =~= b);
    assert(body.subrange(0, i) =~= a);
    assert forall|j: int| !sep_at(b, j) by {
        if 0 <= j && j + 1 < b.len() {
            lemma_number_holds_no_dot(b, j);
        }
    }
}

/// Reading what a range writes gives the range back, for each of the four
/// pairs of brackets.
pub proof fn lemma_text_round_trip(r: Range)
    ensures
        parse_outcome(r.text()) == Ok::<Range, RangeParseError>(r),
{
    let s = r.text();
    let a = decimal(r.start.value() as nat);
    let b = decimal(r.end.value() as nat);
    lemma_decimal_denotes(r.start.value() as nat);
    lemma_decimal_denotes(r.end.value() as nat);
    assert(s.len() == a.len() + b.len() + 4);
    assert(is_opening(s[0]));
    assert(is_closing(s.last()));
    assert(body_of(s) =~= a + seq!['.', '.'] + b);
    assert(is_digit(a[0]) && is_digit(b[0]));
    assert(unsigned_part(a) == a);
    assert(unsigned_part(b) == b);
    assert(number_of(a) == Some(r.start.value()));
    assert(number_of(b) == Some(r.end.value()));
    lemma_two_numbers_make_a_range(s, a, b);
}

} // verus!
