//! Identifiers as they arrive in paths and bodies: decimal text.
use vstd::prelude::*;
use crate::model::{ApiError, Field};

verus! {

pub open spec fn is_digit(c: char) -> bool {
    '0' <= c && c <= '9'
}

pub open spec fn all_digits(s: Seq<char>) -> bool {
    forall|i: int| 0 <= i < s.len() ==> is_digit(#[trigger] s[i])
}

/// The value of a string of decimal digits.
pub open spec fn digits_value(s: Seq<char>) -> int
    decreases s.len(),
{
    if s.len() == 0 {
        0
    } else {
        digits_value(s.drop_last()) * 10 + (s.last() as int - '0' as int)
    }
}

/// The integer that decimal text denotes: digits with an optional leading
/// `+` or `-`, as `i32::from_str` reads it before the range check.
pub open spec fn decimal_of(s: Seq<char>) -> Option<int> {
    if s.len() > 1 && (s[0] == '-' || s[0] == '+') && all_digits(s.drop_first()) {
        if s[0] == '-' {
            Some(-digits_value(s.drop_first()))
        } else {
            Some(digits_value(s.drop_first()))
        }
    } else if s.len() > 0 && all_digits(s) {
        Some(digits_value(s))
    } else {
        None
    }
}

/// The `i32` that `s` denotes, if it denotes one in range.
pub open spec fn id_of(s: Seq<char>) -> Option<i32> {
    match decimal_of(s) {
        Some(v) => if i32::MIN <= v <= i32::MAX { Some(v as i32) } else { None },
        None => None,
    }
}

proof fn lemma_digits_grow(s: Seq<char>, i: int)
    requires
        0 <= i <= s.len(),
        all_digits(s),
    ensures
        digits_value(s.take(i)) <= digits_value(s),
        0 <= digits_value(s.take(i)),
    decreases s.len() - i,
{
    if i < s.len() {
        lemma_digits_grow(s, i + 1);
        assert(s.take(i + 1).drop_last() =~= s.take(i));
        assert(is_digit(s[i]));
    } else {
        assert(s.take(i) =~= s);
        lemma_digits_nonneg(s);
    }
}

proof fn lemma_digits_nonneg(s: Seq<char>)
    requires
        all_digits(s),
    ensures
        0 <= digits_value(s),
    decreases s.len(),
{
    if s.len() > 0 {
        assert(all_digits(s.drop_last())) by {
            assert forall|i: int| 0 <= i < s.drop_last().len() implies is_digit(#[trigger] s.drop_last()[i]) by {
                assert(s.drop_last()[i] == s[i]);
            }
        }
        lemma_digits_nonneg(s.drop_last());
        assert(is_digit(s[s.len() - 1]));
    }
}

/// The value of the digits of `s` from `start` on, when they are all digits
/// and the value is at most 2^31; `None` when a character is not a digit or
/// the value exceeds 2^31.
fn small_digits(s: &Vec<char>, start: usize) -> (r: Option<u64>)
    requires
        start <= s@.len(),
    ensures
        r matches Some(v) ==> all_digits(s@.skip(start as int)) && v == digits_value(
            s@.skip(start as int),
        ) && v <= 0x8000_0000,
        r is None ==> !all_digits(s@.skip(start as int)) || digits_value(s@.skip(start as int))
            > 0x8000_0000,
{
    let ghost t = s@.skip(start as int);
    let mut acc: u64 = 0;
    let mut i: usize = start;
    assert(t.take(0) =~= Seq::<char>::empty());
    while i < s.len()
        invariant
            start <= i <= s@.len(),
            t == s@.skip(start as int),
            all_digits(t.take(i - start)),
            acc == digits_value(t.take(i - start)),
            acc <= 0x8000_0000,
        decreases s@.len() - i,
    {
        let c = s[i];
        assert(t.take(i - start + 1).drop_last() =~= t.take(i - start));
        assert(t[i - start] == c);
        if c < '0' || c > '9' {
            assert(!is_digit(t[i - start]));
            return None;
        }
        let d = (c as u32 - '0' as u32) as u64;
        acc = acc * 10 + d;
        i = i + 1;
        assert(all_digits(t.take(i - start))) by {
            assert forall|k: int| 0 <= k < t.take(i - start).len() implies is_digit(
                #[trigger] t.take(i - start)[k],
            ) by {
                if k < i - start - 1 {
                    assert(t.take(i - start)[k] == t.take(i - start - 1)[k]);
                }
            }
        }
        if acc > 0x8000_0000 {
            proof {
                if all_digits(t) {
                    lemma_digits_grow(t, i - start);
                }
            }
            return None;
        }
    }
    assert(t.take(i - start) =~= t);
    Some(acc)
}

/// Parses decimal text into an `i32`, as `i32::from_str` does.
pub fn parse_i32(text: &str) -> (r: Option<i32>)
    ensures
        r == id_of(text@),
{
    let s = crate::text::to_chars(text);
    if s.len() == 0 {
        return None;
    }
    let negative = s[0] == '-';
    let signed = negative || s[0] == '+';
    if signed && s.len() == 1 {
        assert(!all_digits(s@)) by {
            assert(!is_digit(s@[0]));
        }
        return None;
    }
    let start: usize = if signed { 1 } else { 0 };
    assert(s@.skip(0) =~= s@);
    assert(s@.skip(1) =~= s@.drop_first());
    if signed {
        assert(!is_digit(s@[0]));
    }
    match small_digits(&s, start) {
        Some(v) => {
            if negative {
                if v == 0x8000_0000 {
                    Some(i32::MIN)
                } else {
                    Some(-(v as i32))
                }
            } else if v == 0x8000_0000 {
                None
            } else {
                Some(v as i32)
            }
        },
        None => None,
    }
}

/// The id in `raw`: a missing one or one that is not an `i32` in decimal is a
/// validation error naming `field`.
pub fn parse_id(raw: Option<&str>, field: Field) -> (r: Result<i32, ApiError>)
    ensures
        raw is None ==> r == Err::<i32, ApiError>(ApiError::Validation(field)),
        raw matches Some(t) ==> r == match id_of(t@) {
            Some(v) => Ok::<i32, ApiError>(v),
            None => Err::<i32, ApiError>(ApiError::Validation(field)),
        },
{
    match raw {
        None => Err(ApiError::Validation(field)),
        Some(t) => match parse_i32(t) {
            Some(v) => Ok(v),
            None => Err(ApiError::Validation(field)),
        },
    }
}

} // verus!
