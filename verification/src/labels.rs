//! The labels of a domain name: the runs of characters between its dots.

use vstd::prelude::*;
use crate::chars::{chars_of, push_char};

verus! {

/// The labels of `s`, in order: what stands before the first dot, between
/// each two dots that follow one another, and behind the last one. A text
/// with `k` dots has `k + 1` labels, some of them possibly empty; the empty
/// text has one empty label.
pub open spec fn labels(s: Seq<char>) -> Seq<Seq<char>>
    decreases s.len(),
{
    if s.len() == 0 {
        seq![Seq::<char>::empty()]
    } else {
        let before = labels(s.drop_last());
        if s.last() == '.' {
            before.push(Seq::<char>::empty())
        } else {
            before.drop_last().push(before.last().push(s.last()))
        }
    }
}

/// How many dots `s` holds.
pub open spec fn dot_count(s: Seq<char>) -> nat
    decreases s.len(),
{
    if s.len() == 0 {
        0
    } else if s.last() == '.' {
        dot_count(s.drop_last()) + 1
    } else {
        dot_count(s.drop_last())
    }
}

/// The last label of `s`.
pub open spec fn last_label(s: Seq<char>) -> Seq<char> {
    labels(s).last()
}

/// A text has one label more than it has dots, and no more dots than
/// characters.
pub proof fn lemma_label_count(s: Seq<char>)
    ensures
        labels(s).len() == dot_count(s) + 1,
        dot_count(s) <= s.len(),
    decreases s.len(),
{
    if s.len() > 0 {
        lemma_label_count(s.drop_last());
    }
}

/// No label holds a dot.
pub proof fn lemma_labels_hold_no_dot(s: Seq<char>, k: int, i: int)
    requires
        0 <= k < labels(s).len(),
        0 <= i < labels(s)[k].len(),
    ensures
        labels(s)[k][i] != '.',
    decreases s.len(),
{
    if s.len() > 0 {
        let before = labels(s.drop_last());
        lemma_label_count(s.drop_last());
        if s.last() == '.' {
            lemma_labels_hold_no_dot(s.drop_last(), k, i);
        } else if k < before.len() - 1 {
            lemma_labels_hold_no_dot(s.drop_last(), k, i);
        } else if i < before.last().len() {
            lemma_labels_hold_no_dot(s.drop_last(), k, i);
        }
    }
}

/// The last label is the end of the text from behind its last dot, or the
/// whole text where there is no dot.
pub proof fn lemma_last_label_is_tail(s: Seq<char>)
    ensures
        last_label(s).len() <= s.len(),
        last_label(s) == s.subrange(s.len() - last_label(s).len(), s.len() as int),
        forall|i: int| 0 <= i < last_label(s).len() ==> last_label(s)[i] != '.',
        last_label(s).len() < s.len() ==> s[s.len() - last_label(s).len() - 1] == '.',
    decreases s.len(),
{
    lemma_label_count(s);
    if s.len() > 0 {
        let t = s.drop_last();
        lemma_last_label_is_tail(t);
        lemma_label_count(t);
        let l = last_label(t);
        if s.last() == '.' {
            assert(last_label(s) =~= s.subrange(s.len() as int, s.len() as int));
        } else {
            assert(last_label(s) == l.push(s.last()));
            assert(l.push(s.last()) =~= s.subrange(s.len() - l.len() - 1, s.len() as int));
        }
    } else {
        assert(last_label(s) =~= s.subrange(0, 0));
    }
}

/// Splits `s` at its dots.
pub fn split_labels(s: &str) -> (parts: Vec<String>)
    ensures
        parts.len() == labels(s@).len(),
        forall|k: int| 0 <= k < parts.len() ==> (#[trigger] parts[k])@ == labels(s@)[k],
{
    let v = chars_of(s);
    let n: usize = v.len();
    let mut parts: Vec<String> = Vec::new();
    let mut current = String::new();
    let mut i: usize = 0;
    assert(s@.subrange(0, 0) == Seq::<char>::empty());
    while i < n
        invariant
            v@ == s@,
            n == v.len(),
            i <= n,
            parts.len() + 1 == labels(s@.subrange(0, i as int)).len(),
            forall|k: int|
                0 <= k < parts.len() ==> (#[trigger] parts[k])@ == labels(
                    s@.subrange(0, i as int),
                )[k],
            current@ == labels(s@.subrange(0, i as int)).last(),
        decreases n - i,
    {
        proof {
            assert(s@.subrange(0, i + 1).drop_last() == s@.subrange(0, i as int));
        }
        if v[i] == '.' {
            parts.push(current);
            current = String::new();
        } else {
            push_char(&mut current, v[i]);
        }
        i += 1;
    }
    assert(s@.subrange(0, n as int) == s@);
    parts.push(current);
    parts
}

/// Counts the dots of `s`.
pub fn count_dots(s: &str) -> (count: usize)
    ensures
        count == dot_count(s@),
{
    let v = chars_of(s);
    let n: usize = v.len();
    let mut count: usize = 0;
    let mut i: usize = 0;
    while i < n
        invariant
            v@ == s@,
            n == v.len(),
            i <= n,
            count == dot_count(s@.subrange(0, i as int)),
            count <= i,
        decreases n - i,
    {
        proof {
            assert(s@.subrange(0, i + 1).drop_last() == s@.subrange(0, i as int));
        }
        if v[i] == '.' {
            count += 1;
        }
        i += 1;
    }
    assert(s@.subrange(0, n as int) == s@);
    count
}

} // verus!
