//! Decimal parsing and formatting of integers, proved against one another:
//! the canonical text of a value parses back to the value.

use vstd::prelude::*;

use crate::tokens::{is_delim, is_digit, next_token, after_token, tokens};

verus! {

/// The numeric value of a single decimal digit character.
pub open spec fn digit_val(c: char) -> nat {
    (c as u32 - 48) as nat
}

/// The value of a string of decimal digits, most significant first.
pub open spec fn digits_val(s: Seq<char>) -> nat
    decreases s.len(),
{
    if s.len() == 0 {
        0
    } else {
        digits_val(s.drop_last()) * 10 + digit_val(s.last())
    }
}

pub open spec fn all_digits(s: Seq<char>) -> bool {
    forall|i: int| 0 <= i < s.len() ==> is_digit(#[trigger] s[i])
}

/// The standard textual-parse rule for unsigned integers: an optional
/// leading plus sign, then one or more decimal digits and nothing else.
pub open spec fn parse_unsigned(s: Seq<char>) -> Option<nat> {
    let body = if s.len() > 0 && s[0] == '+' {
        s.drop_first()
    } else {
        s
    };
    if body.len() > 0 && all_digits(body) {
        Some(digits_val(body))
    } else {
        None
    }
}

/// The standard textual-parse rule for signed integers: an optional leading
/// plus or minus sign, then one or more decimal digits and nothing else.
pub open spec fn parse_signed(s: Seq<char>) -> Option<int> {
    if s.len() > 0 && s[0] == '-' {
        let body = s.drop_first();
        if body.len() > 0 && all_digits(body) {
            Some(-(digits_val(body) as int))
        } else {
            None
        }
    } else {
        match parse_unsigned(s) {
            Some(v) => Some(v as int),
            None => None,
        }
    }
}

pub open spec fn parse_u64_text(s: Seq<char>) -> Option<u64> {
    match parse_unsigned(s) {
        Some(v) => if v <= u64::MAX {
            Some(v as u64)
        } else {
            None
        },
        None => None,
    }
}

pub open spec fn parse_u32_text(s: Seq<char>) -> Option<u32> {
    match parse_unsigned(s) {
        Some(v) => if v <= u32::MAX {
            Some(v as u32)
        } else {
            None
        },
        None => None,
    }
}

pub open spec fn parse_usize_text(s: Seq<char>) -> Option<usize> {
    match parse_unsigned(s) {
        Some(v) => if v <= usize::MAX {
            Some(v as usize)
        } else {
            None
        },
        None => None,
    }
}

pub open spec fn parse_i64_text(s: Seq<char>) -> Option<i64> {
    match parse_signed(s) {
        Some(v) => if i64::MIN <= v <= i64::MAX {
            Some(v as i64)
        } else {
            None
        },
        None => None,
    }
}

pub open spec fn parse_i32_text(s: Seq<char>) -> Option<i32> {
    match parse_signed(s) {
        Some(v) => if i32::MIN <= v <= i32::MAX {
            Some(v as i32)
        } else {
            None
        },
        None => None,
    }
}

pub open spec fn parse_isize_text(s: Seq<char>) -> Option<isize> {
    match parse_signed(s) {
        Some(v) => if isize::MIN <= v <= isize::MAX {
            Some(v as isize)
        } else {
            None
        },
        None => None,
    }
}

pub fn is_digit_char(c: char) -> (r: bool)
    ensures
        r == is_digit(c),
{
    let u = c as u32;
    48 <= u && u <= 57
}

pub fn digit_of(c: char) -> (d: u64)
    requires
        is_digit(c),
    ensures
        d == digit_val(c),
{
    (c as u32 - 48) as u64
}

/// The value of a digit string grows (weakly) with every digit appended, so
/// an overflowing prefix dooms the whole string.
pub proof fn lemma_digits_val_prefix_le(s: Seq<char>, m: int)
    requires
        0 <= m <= s.len(),
    ensures
        digits_val(s.take(m)) <= digits_val(s),
    decreases s.len(),
{
    if m < s.len() {
        lemma_digits_val_prefix_le(s.drop_last(), m);
        assert(s.drop_last().take(m) =~= s.take(m));
    } else {
        assert(s.take(m) =~= s);
    }
}

/// Parse the decimal digits of `s` from position `start` to the end.
/// Yields the value exactly when everything from `start` on is at least one
/// digit and the value fits in a machine word.
pub fn parse_digits(s: &Vec<char>, start: usize) -> (r: Option<u64>)
    requires
        start <= s@.len(),
    ensures
        ({
            let body = s@.skip(start as int);
            match r {
                Some(v) => body.len() > 0 && all_digits(body) && digits_val(body) == v,
                None => !(body.len() > 0 && all_digits(body) && digits_val(body) <= u64::MAX),
            }
        }),
{
    let ghost body = s@.skip(start as int);
    let n = s.len();
    if start == n {
        return None;
    }
    let mut acc: u64 = 0;
    let mut i: usize = start;
    while i < n
        invariant
            start <= i <= n,
            n == s@.len(),
            body == s@.skip(start as int),
            all_digits(s@.subrange(start as int, i as int)),
            acc == digits_val(s@.subrange(start as int, i as int)),
        decreases n - i,
    {
        let c = s[i];
        if !is_digit_char(c) {
            proof {
                assert(body[i - start] == s@[i as int]);
                assert(!all_digits(body));
            }
            return None;
        }
        let d = digit_of(c);
        if acc > (u64::MAX - d) / 10 {
            proof {
                let prefix = s@.subrange(start as int, i as int + 1);
                assert(prefix.drop_last() =~= s@.subrange(start as int, i as int));
                assert(prefix.last() == s@[i as int]);
                assert(digits_val(prefix) == acc * 10 + d);
                let q = (u64::MAX - d) as int / 10;
                assert((u64::MAX - d) as int == q * 10 + (u64::MAX - d) as int % 10);
                assert(acc * 10 + d > u64::MAX);
                if all_digits(body) {
                    assert(body.take(i - start + 1) =~= prefix);
                    lemma_digits_val_prefix_le(body, i - start + 1);
                    assert(digits_val(body) > u64::MAX);
                }
            }
            return None;
        }
        proof {
            let prefix = s@.subrange(start as int, i as int + 1);
            assert(prefix.drop_last() =~= s@.subrange(start as int, i as int));
            assert(prefix.last() == s@[i as int]);
        }
        acc = acc * 10 + d;
        i = i + 1;
    }
    proof {
        assert(s@.subrange(start as int, n as int) =~= body);
    }
    Some(acc)
}

/// Division as the machine performs it on signed words: the magnitudes
/// divide, the quotient truncates toward zero, and the result is negative
/// exactly when the signs differ.
pub open spec fn trunc_div(a: int, b: int) -> int {
    let m = vstd::math::abs(a) as int / vstd::math::abs(b) as int;
    if (a < 0) == (b < 0) {
        m
    } else {
        -m
    }
}

/// The matching remainder: the magnitudes' remainder, carrying the
/// dividend's sign, so that `b * trunc_div(a, b) + trunc_rem(a, b) == a`.
pub open spec fn trunc_rem(a: int, b: int) -> int {
    let m = vstd::math::abs(a) as int % vstd::math::abs(b) as int;
    if a < 0 {
        -m
    } else {
        m
    }
}

/// The quotient and remainder recombine into the dividend: truncating
/// division and the signed remainder are two halves of one identity.
pub proof fn lemma_trunc_div_rem(a: int, b: int)
    requires
        b != 0,
    ensures
        b * trunc_div(a, b) + trunc_rem(a, b) == a,
{
    let ma = vstd::math::abs(a) as int;
    let mb = vstd::math::abs(b) as int;
    let q = ma / mb;
    let r = ma % mb;
    vstd::arithmetic::div_mod::lemma_fundamental_div_mod(ma, mb);
    assert(ma == mb * q + r);
    if b < 0 {
        assert((-mb) * q == -(mb * q)) by (nonlinear_arith);
    }
    if (a < 0) == (b < 0) {
        if a < 0 {
            assert(b * trunc_div(a, b) + trunc_rem(a, b) == (-mb) * q + (-r));
        } else {
            assert(b * trunc_div(a, b) + trunc_rem(a, b) == mb * q + r);
        }
    } else {
        if a < 0 {
            assert(b * trunc_div(a, b) + trunc_rem(a, b) == mb * (-q) + (-r));
            assert(mb * (-q) == -(mb * q)) by (nonlinear_arith);
        } else {
            assert(b * trunc_div(a, b) + trunc_rem(a, b) == (-mb) * (-q) + r);
            assert((-mb) * (-q) == mb * q) by (nonlinear_arith);
        }
    }
}

/// The magnitude of a signed word, as an unsigned word.
fn magnitude_u64(a: i64) -> (m: u64)
    ensures
        m as int == vstd::math::abs(a as int),
{
    if a == i64::MIN {
        9223372036854775808u64
    } else if a < 0 {
        (-a) as u64
    } else {
        a as u64
    }
}

/// Truncating signed division, the semantics of the machine's own
/// division instruction.  The excluded pair is the one overflow: the
/// most negative value divided by minus one.
pub fn div_i64(a: i64, b: i64) -> (r: i64)
    requires
        b != 0,
        !(a == i64::MIN && b == -1),
    ensures
        r as int == trunc_div(a as int, b as int),
{
    let ma = magnitude_u64(a);
    let mb = magnitude_u64(b);
    let q = ma / mb;
    proof {
        vstd::arithmetic::div_mod::lemma_fundamental_div_mod(ma as int, mb as int);
        assert(mb as int * (q as int) >= q as int) by (nonlinear_arith)
            requires
                mb >= 1,
                q >= 0,
        ;
        assert(q as int <= ma as int);
        if a == i64::MIN && (a < 0) == (b < 0) {
            assert(mb >= 2);
            assert(mb as int * (q as int) >= 2 * (q as int)) by (nonlinear_arith)
                requires
                    mb >= 2,
                    q >= 0,
            ;
        }
    }
    if (a < 0) == (b < 0) {
        q as i64
    } else {
        if q == 9223372036854775808u64 {
            i64::MIN
        } else {
            -(q as i64)
        }
    }
}

/// Truncating signed remainder: the remainder carries the dividend's
/// sign, as the machine's remainder instruction does.
pub fn rem_i64(a: i64, b: i64) -> (r: i64)
    requires
        b != 0,
        !(a == i64::MIN && b == -1),
    ensures
        r as int == trunc_rem(a as int, b as int),
{
    let ma = magnitude_u64(a);
    let mb = magnitude_u64(b);
    let m = ma % mb;
    proof {
        vstd::arithmetic::div_mod::lemma_mod_bound(ma as int, mb as int);
        assert(m < mb);
    }
    if a < 0 {
        -(m as i64)
    } else {
        m as i64
    }
}

/// The character of a single decimal digit.
pub open spec fn digit_char(d: nat) -> char {
    if d == 0 {
        '0'
    } else if d == 1 {
        '1'
    } else if d == 2 {
        '2'
    } else if d == 3 {
        '3'
    } else if d == 4 {
        '4'
    } else if d == 5 {
        '5'
    } else if d == 6 {
        '6'
    } else if d == 7 {
        '7'
    } else if d == 8 {
        '8'
    } else {
        '9'
    }
}

/// The canonical decimal text of a natural number: no sign, no leading
/// zeros (except for zero itself).
pub open spec fn dec_digits(n: nat) -> Seq<char>
    decreases n,
{
    if n < 10 {
        seq![digit_char(n)]
    } else {
        dec_digits(n / 10).push(digit_char(n % 10))
    }
}

/// The canonical decimal text of an integer: a minus sign for negative
/// values, then the magnitude's digits.
pub open spec fn int_text(v: int) -> Seq<char> {
    if v < 0 {
        seq!['-'] + dec_digits((-v) as nat)
    } else {
        dec_digits(v as nat)
    }
}

pub fn digit_char_of(d: u64) -> (c: char)
    requires
        d < 10,
    ensures
        c == digit_char(d as nat),
{
    if d == 0 {
        '0'
    } else if d == 1 {
        '1'
    } else if d == 2 {
        '2'
    } else if d == 3 {
        '3'
    } else if d == 4 {
        '4'
    } else if d == 5 {
        '5'
    } else if d == 6 {
        '6'
    } else if d == 7 {
        '7'
    } else if d == 8 {
        '8'
    } else {
        '9'
    }
}

/// Format an unsigned value as its canonical decimal text.
pub fn u64_to_chars(n: u64) -> (r: Vec<char>)
    ensures
        r@ == dec_digits(n as nat),
    decreases n,
{
    if n < 10 {
        let mut v: Vec<char> = Vec::new();
        v.push(digit_char_of(n));
        proof {
            assert(v@ =~= dec_digits(n as nat));
        }
        v
    } else {
        let mut v = u64_to_chars(n / 10);
        v.push(digit_char_of(n % 10));
        v
    }
}

/// Format a signed value as its canonical decimal text.
pub fn i64_to_chars(v: i64) -> (r: Vec<char>)
    ensures
        r@ == int_text(v as int),
{
    if v >= 0 {
        u64_to_chars(v as u64)
    } else {
        let mag: u64 = if v == i64::MIN {
            9223372036854775808u64
        } else {
            (-v) as u64
        };
        let mut r: Vec<char> = Vec::new();
        r.push('-');
        let mut d = u64_to_chars(mag);
        r.append(&mut d);
        proof {
            assert(r@ =~= int_text(v as int));
        }
        r
    }
}

proof fn lemma_digit_char_val(d: nat)
    requires
        d < 10,
    ensures
        is_digit(digit_char(d)),
        digit_val(digit_char(d)) == d,
{
}

/// The canonical decimal text is non-empty, consists of digits only, and
/// denotes the value it was made from.
pub proof fn lemma_dec_digits_value(n: nat)
    ensures
        dec_digits(n).len() >= 1,
        all_digits(dec_digits(n)),
        digits_val(dec_digits(n)) == n,
    decreases n,
{
    if n < 10 {
        lemma_digit_char_val(n);
        let s = dec_digits(n);
        assert(s == seq![digit_char(n)]);
        assert(s.drop_last() =~= Seq::<char>::empty());
        assert(digits_val(Seq::<char>::empty()) == 0);
        assert(s.last() == digit_char(n));
        assert(digits_val(s) == digits_val(s.drop_last()) * 10 + digit_val(s.last()));
    } else {
        lemma_dec_digits_value(n / 10);
        lemma_digit_char_val(n % 10);
        let s = dec_digits(n);
        assert(s.drop_last() =~= dec_digits(n / 10));
        assert(digits_val(s) == (n / 10) * 10 + n % 10);
        vstd::arithmetic::div_mod::lemma_fundamental_div_mod(n as int, 10);
        assert forall|i: int| 0 <= i < s.len() implies is_digit(#[trigger] s[i]) by {
            if i < s.len() - 1 {
                assert(s[i] == dec_digits(n / 10)[i]);
            }
        }
    }
}

/// Digits and the minus sign are not delimiters, so a number's canonical
/// text always forms a single token.
pub proof fn lemma_int_text_no_delims(v: int)
    ensures
        int_text(v).len() >= 1,
        forall|i: int| 0 <= i < int_text(v).len() ==> !is_delim(#[trigger] int_text(v)[i]),
{
    let mag = if v < 0 {
        (-v) as nat
    } else {
        v as nat
    };
    lemma_dec_digits_value(mag);
    assert forall|i: int| 0 <= i < int_text(v).len() implies !is_delim(
        #[trigger] int_text(v)[i],
    ) by {
        if v < 0 {
            if i > 0 {
                assert(int_text(v)[i] == dec_digits(mag)[i - 1]);
                assert(is_digit(dec_digits(mag)[i - 1]));
            }
        } else {
            assert(is_digit(dec_digits(mag)[i]));
        }
    }
}

/// Any non-empty delimiter-free text is exactly one token: extraction
/// returns it whole and leaves an exhausted stream.
pub proof fn lemma_single_token(s: Seq<char>)
    requires
        s.len() > 0,
        forall|i: int| 0 <= i < s.len() ==> !is_delim(#[trigger] s[i]),
    ensures
        next_token(s) == s,
        after_token(s).len() == 0,
        tokens(s) == seq![s],
{
    assert(crate::tokens::trim_delims(s) == s);
    crate::tokens::lemma_token_run_len_is(s, s.len() as int);
    assert(next_token(s) =~= s);
    assert(after_token(s) =~= Seq::<char>::empty());
    assert(next_token(after_token(s)).len() == 0);
    assert(tokens(after_token(s)) == Seq::<Seq<char>>::empty());
    assert(next_token(s).len() > 0);
    assert(tokens(s) == seq![next_token(s)] + tokens(after_token(s)));
    assert(tokens(s) =~= seq![s]);
}

/// Round trip for unsigned values: the canonical text of `n` is one token,
/// and parsing that token yields `n` back.
pub proof fn lemma_round_trip_u64(n: u64)
    ensures
        parse_u64_text(dec_digits(n as nat)) == Some(n),
        tokens(dec_digits(n as nat)) == seq![dec_digits(n as nat)],
{
    lemma_dec_digits_value(n as nat);
    let s = dec_digits(n as nat);
    assert(is_digit(s[0]));
    assert(s[0] != '+');
    lemma_int_text_no_delims(n as int);
    assert(int_text(n as int) == s);
    lemma_single_token(s);
}

/// Round trip for the narrower unsigned types: their canonical text is the
/// same digit string, so it parses back within their own bound.
pub proof fn lemma_round_trip_u32(n: u32)
    ensures
        parse_u32_text(dec_digits(n as nat)) == Some(n),
        tokens(dec_digits(n as nat)) == seq![dec_digits(n as nat)],
{
    lemma_round_trip_u64(n as u64);
    lemma_dec_digits_value(n as nat);
    let s = dec_digits(n as nat);
    assert(is_digit(s[0]));
    assert(s[0] != '+');
}

pub proof fn lemma_round_trip_usize(n: usize)
    ensures
        parse_usize_text(dec_digits(n as nat)) == Some(n),
        tokens(dec_digits(n as nat)) == seq![dec_digits(n as nat)],
{
    lemma_round_trip_u64(n as u64);
    lemma_dec_digits_value(n as nat);
    let s = dec_digits(n as nat);
    assert(is_digit(s[0]));
    assert(s[0] != '+');
}

/// Round trip for a single character: any non-delimiter character is one
/// token of its own and parses back as itself.  A delimiter character is
/// not parse-stable: its text would be skipped as a token boundary.
pub proof fn lemma_round_trip_char(c: char)
    requires
        !is_delim(c),
    ensures
        tokens(seq![c]) == seq![seq![c]],
        next_token(seq![c]) == seq![c],
{
    lemma_single_token(seq![c]);
}

/// Round trip for signed values: the canonical text of `v` is one token,
/// and parsing that token yields `v` back.
pub proof fn lemma_round_trip_i64(v: i64)
    ensures
        parse_i64_text(int_text(v as int)) == Some(v),
        tokens(int_text(v as int)) == seq![int_text(v as int)],
{
    let s = int_text(v as int);
    lemma_int_text_no_delims(v as int);
    lemma_single_token(s);
    if v < 0 {
        let mag = (-(v as int)) as nat;
        lemma_dec_digits_value(mag);
        assert(s[0] == '-');
        assert(s.drop_first() =~= dec_digits(mag));
        assert(parse_signed(s) == Some(-(mag as int)));
    } else {
        lemma_dec_digits_value(v as nat);
        assert(is_digit(s[0]));
        assert(s[0] != '+');
        assert(s[0] != '-');
        assert(parse_unsigned(s) == Some(v as nat));
    }
}

/// Round trip for the narrower signed types.
pub proof fn lemma_round_trip_i32(v: i32)
    ensures
        parse_i32_text(int_text(v as int)) == Some(v),
        tokens(int_text(v as int)) == seq![int_text(v as int)],
{
    lemma_round_trip_i64(v as i64);
    let s = int_text(v as int);
    if v < 0 {
        let mag = (-(v as int)) as nat;
        lemma_dec_digits_value(mag);
        assert(s.drop_first() =~= dec_digits(mag));
    } else {
        lemma_dec_digits_value(v as nat);
        assert(is_digit(s[0]));
    }
}

pub proof fn lemma_round_trip_isize(v: isize)
    ensures
        parse_isize_text(int_text(v as int)) == Some(v),
        tokens(int_text(v as int)) == seq![int_text(v as int)],
{
    lemma_round_trip_i64(v as i64);
    let s = int_text(v as int);
    if v < 0 {
        let mag = (-(v as int)) as nat;
        lemma_dec_digits_value(mag);
        assert(s.drop_first() =~= dec_digits(mag));
    } else {
        lemma_dec_digits_value(v as nat);
        assert(is_digit(s[0]));
    }
}

} // verus!
