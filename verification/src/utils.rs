//! The value model shared by storage, literals and comparison operands.

use vstd::prelude::*;
use vstd::std_specs::iter::IteratorSpec;
use vstd::string::group_string_axioms;
use crate::model::{decimal, digit, join_with, split_on, text_lt, without_trailing};

verus! {

/// A stored scalar: present text, or null.
pub type Value = Option<String>;

/// Text as a mathematical value.
pub type Text = Seq<char>;

/// A [`Value`] as a mathematical value.
pub type Cell = Option<Seq<char>>;

/// One row of cells, in schema order.
pub type Row = Seq<Option<Seq<char>>>;

/// A duplicate of `value`.
pub fn clone_value(value: &Value) -> (copy: Value)
    ensures
        copy.deep_view() == value.deep_view(),
{
    match value {
        Some(text) => Some(text.clone()),
        None => None,
    }
}

/// A duplicate of `values`, cell for cell.
pub fn clone_values(values: &Vec<Value>) -> (copy: Vec<Value>)
    ensures
        copy.deep_view() == values.deep_view(),
{
    let mut copy: Vec<Value> = Vec::new();
    let mut i: usize = 0;
    while i < values.len()
        invariant
            i <= values.len(),
            copy.len() == i,
            forall|k: int| 0 <= k < i ==> copy[k].deep_view() == values[k].deep_view(),
        decreases values.len() - i,
    {
        copy.push(clone_value(&values[i]));
        i = i + 1;
    }
    assert(copy.deep_view() =~= values.deep_view());
    copy
}

/// `String::push`: appends one character to the end of the text and leaves
/// what was there as it was.
#[verifier::external_body]
pub(crate) fn push_char(text: &mut String, c: char)
    ensures
        final(text)@ == old(text)@.push(c),
{
    text.push(c);
}

/// Whether `a` comes before `b` in text order.
pub fn text_less(a: &str, b: &str) -> (less: bool)
    ensures
        less == text_lt(a@, b@),
{
    broadcast use group_string_axioms;

    let mut rest_a = a.chars();
    let mut rest_b = b.chars();
    loop
        invariant
            text_lt(a@, b@) == text_lt(rest_a.remaining(), rest_b.remaining()),
            rest_a.decrease() is Some,
        decreases rest_a.decrease()->0,
    {
        let next_a = rest_a.next();
        let next_b = rest_b.next();
        match (next_a, next_b) {
            (_, None) => {
                return false;
            },
            (None, Some(_)) => {
                return true;
            },
            (Some(x), Some(y)) => {
                if x != y {
                    return x < y;
                }
            },
        }
    }
}

/// The character that stands for a single digit.
fn digit_char(d: usize) -> (c: char)
    requires
        d < 10,
    ensures
        c == digit(d as nat),
{
    if d == 0 {
        '0'
    } else if d == 1 {
        '1'
    } else if d == 2 {
        '2'
    } else if d == 3 {
        '3'
    } else if d == 4 {
        '4'
    } else if d == 5 {
        '5'
    } else if d == 6 {
        '6'
    } else if d == 7 {
        '7'
    } else if d == 8 {
        '8'
    } else {
        '9'
    }
}

/// A number in decimal digits.
pub fn decimal_text(n: usize) -> (text: String)
    ensures
        text@ == decimal(n as nat),
    decreases n,
{
    let mut text = if n < 10 {
        String::new()
    } else {
        decimal_text(n / 10)
    };
    push_char(&mut text, digit_char(n % 10));
    text
}

/// The pieces of `text` between the occurrences of `delimiter`.
pub fn split_text(text: &str, delimiter: char) -> (pieces: Vec<String>)
    ensures
        pieces.deep_view() == split_on(text@, delimiter),
{
    broadcast use group_string_axioms;

    let mut pieces: Vec<String> = Vec::new();
    let mut current = String::new();
    let mut rest = text.chars();
    let ghost mut done: Seq<char> = Seq::empty();
    assert(pieces.deep_view().push(current@) =~= split_on(done, delimiter));
    assert(text@ =~= done + rest.remaining());
    loop
        invariant
            text@ == done + rest.remaining(),
            pieces.deep_view().push(current@) == split_on(done, delimiter),
            rest.decrease() is Some,
        decreases rest.decrease()->0,
    {
        let ghost before = done;
        let ghost pieces_before = pieces.deep_view();
        let ghost current_before = current@;
        match rest.next() {
            Some(c) => {
                proof {
                    done = done.push(c);
                    assert(done.drop_last() =~= before);
                    assert(text@ =~= done + rest.remaining());
                }
                if c == delimiter {
                    pieces.push(current);
                    current = String::new();
                    assert(pieces.deep_view() =~= pieces_before.push(current_before));
                } else {
                    push_char(&mut current, c);
                    assert(pieces.deep_view().push(current@) =~= pieces_before.push(
                        current_before,
                    ).update(pieces_before.len() as int, current_before.push(c)));
                }
            },
            None => {
                pieces.push(current);
                assert(pieces.deep_view() =~= pieces_before.push(current_before));
                assert(text@ =~= done);
                return pieces;
            },
        }
    }
}

/// `text` without its last character, if that is `c`.
pub fn strip_last(text: &str, c: char) -> (stripped: String)
    ensures
        stripped@ == without_trailing(text@, c),
{
    broadcast use group_string_axioms;

    let mut stripped = String::new();
    let mut held = false;
    let mut rest = text.chars();
    let ghost mut done: Seq<char> = Seq::empty();
    assert(text@ =~= done + rest.remaining());
    loop
        invariant
            text@ == done + rest.remaining(),
            held ==> done.len() > 0 && done.last() == c && stripped@ == done.drop_last(),
            !held ==> (done.len() == 0 || done.last() != c) && stripped@ == done,
            rest.decrease() is Some,
        decreases rest.decrease()->0,
    {
        let ghost before = done;
        match rest.next() {
            Some(x) => {
                proof {
                    done = done.push(x);
                    assert(done.drop_last() =~= before);
                    assert(text@ =~= done + rest.remaining());
                }
                if held {
                    push_char(&mut stripped, c);
                    assert(stripped@ =~= before);
                }
                if x == c {
                    held = true;
                } else {
                    push_char(&mut stripped, x);
                    held = false;
                }
            },
            None => {
                assert(text@ =~= done);
                return stripped;
            },
        }
    }
}

/// The parts one after the other with `delimiter` between each two.
pub fn join_texts(parts: &Vec<String>, delimiter: char) -> (joined: String)
    ensures
        joined@ == join_with(parts.deep_view(), delimiter),
{
    let mut joined = String::new();
    let mut i: usize = 0;
    assert(parts.deep_view().take(0) =~= Seq::<Text>::empty());
    while i < parts.len()
        invariant
            i <= parts.len(),
            joined@ == join_with(parts.deep_view().take(i as int), delimiter),
        decreases parts.len() - i,
    {
        assert(parts.deep_view().take(i + 1).drop_last() =~= parts.deep_view().take(i as int));
        if i > 0 {
            push_char(&mut joined, delimiter);
        }
        joined.append(parts[i].as_str());
        proof {
            if i == 0 {
                assert(joined@ =~= parts.deep_view()[0]);
            }
        }
        i = i + 1;
    }
    assert(parts.deep_view().take(i as int) =~= parts.deep_view());
    joined
}

} // verus!
