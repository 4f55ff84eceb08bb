//! The "parseable from token text" capability: a fixed registry of
//! primitive types, each with its standard textual-parse rule, plus an
//! extension point for user types.

use vstd::prelude::*;

use crate::numeric::{
    all_digits, digits_val, parse_digits, parse_i32_text, parse_i64_text, parse_isize_text,
    parse_signed, parse_u32_text, parse_u64_text, parse_unsigned, parse_usize_text,
};
use crate::text::chars_to_string;

verus! {

/// A type readable from one token's text.
///
/// `accepts` says which token texts parse; `is_parse_of` says which value a
/// text denotes.  For every implementation in this crate `is_parse_of` pins
/// the value (or, for `String`, its view) uniquely.
pub trait Token: Sized {
    /// Does this token text parse as the type?
    spec fn accepts(s: Seq<char>) -> bool;

    /// Is `v` the value that this token text denotes?
    spec fn is_parse_of(s: Seq<char>, v: Self) -> bool;

    /// Parse one token's characters by the type's textual-parse rule.
    fn parse_token(t: &Vec<char>) -> (r: Option<Self>)
        ensures
            r matches Some(v) ==> Self::accepts(t@) && Self::is_parse_of(t@, v),
            r is None ==> !Self::accepts(t@),
    ;
}

/// Where an optional leading plus sign ends: the digits of an unsigned
/// token start after it.
fn unsigned_start(t: &Vec<char>) -> (start: usize)
    ensures
        start <= t@.len(),
        t@.skip(start as int) == (if t@.len() > 0 && t@[0] == '+' {
            t@.drop_first()
        } else {
            t@
        }),
{
    if t.len() > 0 && t[0] == '+' {
        proof {
            assert(t@.skip(1) =~= t@.drop_first());
        }
        1
    } else {
        proof {
            assert(t@.skip(0) =~= t@);
        }
        0
    }
}

impl Token for u64 {
    open spec fn accepts(s: Seq<char>) -> bool {
        parse_u64_text(s) is Some
    }

    open spec fn is_parse_of(s: Seq<char>, v: u64) -> bool {
        parse_u64_text(s) == Some(v)
    }

    fn parse_token(t: &Vec<char>) -> (r: Option<u64>) {
        let start = unsigned_start(t);
        parse_digits(t, start)
    }
}

impl Token for u32 {
    open spec fn accepts(s: Seq<char>) -> bool {
        parse_u32_text(s) is Some
    }

    open spec fn is_parse_of(s: Seq<char>, v: u32) -> bool {
        parse_u32_text(s) == Some(v)
    }

    fn parse_token(t: &Vec<char>) -> (r: Option<u32>) {
        let start = unsigned_start(t);
        match parse_digits(t, start) {
            Some(v) => if v <= u32::MAX as u64 {
                Some(v as u32)
            } else {
                None
            },
            None => None,
        }
    }
}

impl Token for usize {
    open spec fn accepts(s: Seq<char>) -> bool {
        parse_usize_text(s) is Some
    }

    open spec fn is_parse_of(s: Seq<char>, v: usize) -> bool {
        parse_usize_text(s) == Some(v)
    }

    fn parse_token(t: &Vec<char>) -> (r: Option<usize>) {
        let start = unsigned_start(t);
        match parse_digits(t, start) {
            Some(v) => if v <= usize::MAX as u64 {
                Some(v as usize)
            } else {
                None
            },
            None => None,
        }
    }
}

/// Parse a signed token: an optional sign, then digits.  The magnitude
/// bound differs per target type, so the caller hands in the digits'
/// value and finishes the range check.
fn signed_magnitude(t: &Vec<char>) -> (r: (bool, Option<u64>))
    ensures
        r.0 == (t@.len() > 0 && t@[0] == '-'),
        ({
            let body = if t@.len() > 0 && (t@[0] == '-' || t@[0] == '+') {
                t@.drop_first()
            } else {
                t@
            };
            match r.1 {
                Some(v) => body.len() > 0 && all_digits(body) && digits_val(body) == v,
                None => !(body.len() > 0 && all_digits(body) && digits_val(body) <= u64::MAX),
            }
        }),
{
    let neg = t.len() > 0 && t[0] == '-';
    let start: usize = if t.len() > 0 && (t[0] == '-' || t[0] == '+') {
        proof {
            assert(t@.skip(1) =~= t@.drop_first());
        }
        1
    } else {
        proof {
            assert(t@.skip(0) =~= t@);
        }
        0
    };
    (neg, parse_digits(t, start))
}

impl Token for i64 {
    open spec fn accepts(s: Seq<char>) -> bool {
        parse_i64_text(s) is Some
    }

    open spec fn is_parse_of(s: Seq<char>, v: i64) -> bool {
        parse_i64_text(s) == Some(v)
    }

    fn parse_token(t: &Vec<char>) -> (r: Option<i64>) {
        let (neg, mag) = signed_magnitude(t);
        match mag {
            Some(v) => {
                if neg {
                    if v <= i64::MAX as u64 {
                        Some(-(v as i64))
                    } else if v == 9223372036854775808u64 {
                        Some(i64::MIN)
                    } else {
                        None
                    }
                } else {
                    if v <= i64::MAX as u64 {
                        Some(v as i64)
                    } else {
                        None
                    }
                }
            },
            None => None,
        }
    }
}

impl Token for i32 {
    open spec fn accepts(s: Seq<char>) -> bool {
        parse_i32_text(s) is Some
    }

    open spec fn is_parse_of(s: Seq<char>, v: i32) -> bool {
        parse_i32_text(s) == Some(v)
    }

    fn parse_token(t: &Vec<char>) -> (r: Option<i32>) {
        let (neg, mag) = signed_magnitude(t);
        match mag {
            Some(v) => {
                if neg {
                    if v <= i32::MAX as u64 {
                        Some(-(v as i32))
                    } else if v == 2147483648u64 {
                        Some(i32::MIN)
                    } else {
                        None
                    }
                } else {
                    if v <= i32::MAX as u64 {
                        Some(v as i32)
                    } else {
                        None
                    }
                }
            },
            None => None,
        }
    }
}

impl Token for isize {
    open spec fn accepts(s: Seq<char>) -> bool {
        parse_isize_text(s) is Some
    }

    open spec fn is_parse_of(s: Seq<char>, v: isize) -> bool {
        parse_isize_text(s) == Some(v)
    }

    fn parse_token(t: &Vec<char>) -> (r: Option<isize>) {
        let (neg, mag) = signed_magnitude(t);
        match mag {
            Some(v) => {
                if neg {
                    if v <= isize::MAX as u64 {
                        Some(-(v as isize))
                    } else if v == isize::MAX as u64 + 1 {
                        Some(isize::MIN)
                    } else {
                        None
                    }
                } else {
                    if v <= isize::MAX as u64 {
                        Some(v as isize)
                    } else {
                        None
                    }
                }
            },
            None => None,
        }
    }
}

impl Token for String {
    /// Every token text is a string; parsing never fails.
    open spec fn accepts(s: Seq<char>) -> bool {
        true
    }

    open spec fn is_parse_of(s: Seq<char>, v: String) -> bool {
        v@ == s
    }

    fn parse_token(t: &Vec<char>) -> (r: Option<String>) {
        Some(chars_to_string(t))
    }
}

impl Token for char {
    /// A token parses as a character exactly when it is one character long.
    open spec fn accepts(s: Seq<char>) -> bool {
        s.len() == 1
    }

    open spec fn is_parse_of(s: Seq<char>, v: char) -> bool {
        s.len() == 1 && s[0] == v
    }

    fn parse_token(t: &Vec<char>) -> (r: Option<char>) {
        if t.len() == 1 {
            Some(t[0])
        } else {
            None
        }
    }
}

} // verus!
