//! Whole numbers out of text.
use vstd::prelude::*;

verus! {

/// The number that decimal digits write; nothing where a character is no digit.
pub open spec fn digits_value(s: Seq<char>) -> Option<nat>
    decreases s.len(),
{
    if s.len() == 0 {
        Some(0)
    } else {
        match digits_value(s.drop_last()) {
            None => None,
            Some(n) => if '0' <= s.last() <= '9' {
                Some(10 * n + (s.last() as u32 - '0' as u32) as nat)
            } else {
                None
            },
        }
    }
}

/// The 64-bit number that a text writes: a sign or none, and then at least one digit.
pub open spec fn int_value(s: Seq<char>) -> Option<i64> {
    let signed = s.len() > 0 && (s[0] == '-' || s[0] == '+');
    let digits = if signed {
        s.drop_first()
    } else {
        s
    };
    match digits_value(digits) {
        None => None,
        Some(n) => {
            let v: int = if signed && s[0] == '-' {
                -(n as int)
            } else {
                n as int
            };
            if digits.len() > 0 && i64::MIN <= v <= i64::MAX {
                Some(v as i64)
            } else {
                None
            }
        },
    }
}

/// What `str::parse` says of a text that writes no 64-bit number.
pub uninterp spec fn int_error(s: Seq<char>) -> Seq<char>;

/// `str::parse` to a 64-bit number, and the words of the error where there is none.
#[verifier::external_body]
pub(crate) fn parse_int(s: &str) -> (r: Result<i64, String>)
    ensures
        r is Ok == int_value(s@) is Some,
        r is Ok ==> int_value(s@) == Some(r->Ok_0),
        r is Err ==> r->Err_0@ == int_error(s@),
{
    s.parse::<i64>().map_err(|e| e.to_string())
}

} // verus!
