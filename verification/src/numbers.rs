//! Splitting the text of a number type's name into its letters and digits.
use vstd::prelude::*;
use crate::text::{chars_of, is_ascii_digit, string_from_chars};

verus! {

/// Whether `c` is no ASCII digit.
pub open spec fn not_digit(c: char) -> bool {
    !is_ascii_digit(c)
}

/// The characters of `s` that are no ASCII digits, in order.
pub open spec fn letters(s: Seq<char>) -> Seq<char> {
    s.filter(|c: char| not_digit(c))
}

/// The ASCII digits of `s`, in order.
pub open spec fn digits(s: Seq<char>) -> Seq<char> {
    s.filter(|c: char| is_ascii_digit(c))
}

/// The characters of `s` that pass `keep`, in order.
fn filter_chars(s: &str, keep_digits: bool) -> (r: String)
    ensures
        keep_digits ==> r@ == digits(s@),
        !keep_digits ==> r@ == letters(s@),
{
    let cs = chars_of(s);
    let ghost pred = if keep_digits { |c: char| is_ascii_digit(c) } else { |c: char| not_digit(c) };
    let mut out: Vec<char> = Vec::new();
    let mut i: usize = 0;
    proof {
        reveal(Seq::filter);
        assert(cs@.take(0).filter(pred) =~= Seq::<char>::empty());
    }
    while i < cs.len()
        invariant
            i <= cs@.len(),
            out@ == cs@.take(i as int).filter(pred),
            pred == (if keep_digits { |c: char| is_ascii_digit(c) } else { |c: char| not_digit(c) }),
        decreases cs.len() - i,
    {
        let c = cs[i];
        let digit = c >= '0' && c <= '9';
        proof {
            reveal(Seq::filter);
            assert(cs@.take(i as int + 1).drop_last() =~= cs@.take(i as int));
            assert(cs@.take(i as int + 1).last() == c);
        }
        if digit == keep_digits {
            out.push(c);
        }
        i += 1;
    }
    proof {
        assert(cs@.take(i as int) =~= cs@);
    }
    string_from_chars(out.as_slice())
}

/// The characters of `s` that are no ASCII digits, in order.
pub fn remove_numbers(s: &str) -> (r: String)
    ensures
        r@ == letters(s@),
{
    filter_chars(s, false)
}

/// The ASCII digits of `s`, in order.
pub fn get_digits(s: &str) -> (r: String)
    ensures
        r@ == digits(s@),
{
    filter_chars(s, true)
}

/// Every character of a text goes to exactly one of its letters and its
/// digits: the two parts are as long as the text together, the first holds
/// no digit and the second only digits.
pub proof fn law_split_partitions(s: Seq<char>)
    ensures
        letters(s).len() + digits(s).len() == s.len(),
        forall|i: int| 0 <= i < letters(s).len() ==> !is_ascii_digit(#[trigger] letters(s)[i]),
        forall|i: int| 0 <= i < digits(s).len() ==> is_ascii_digit(#[trigger] digits(s)[i]),
    decreases s.len(),
{
    reveal(Seq::filter);
    if s.len() > 0 {
        law_split_partitions(s.drop_last());
    }
    assert forall|i: int| 0 <= i < letters(s).len() implies !is_ascii_digit(#[trigger] letters(s)[i]) by {
        s.lemma_filter_pred(|c: char| not_digit(c), i);
    }
    assert forall|i: int| 0 <= i < digits(s).len() implies is_ascii_digit(#[trigger] digits(s)[i]) by {
        s.lemma_filter_pred(|c: char| is_ascii_digit(c), i);
    }
}

} // verus!
