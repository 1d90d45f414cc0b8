//! Decimal text for the integer fields of a record: formatting, parsing, and
//! the round trip between them.

use vstd::arithmetic::div_mod::lemma_fundamental_div_mod;
use vstd::prelude::*;

verus! {

/// The digit character for a value 0..=9 (`'0'` otherwise).
pub open spec fn digit_char(d: int) -> char {
    if d == 1 {
        '1'
    } else if d == 2 {
        '2'
    } else if d == 3 {
        '3'
    } else if d == 4 {
        '4'
    } else if d == 5 {
        '5'
    } else if d == 6 {
        '6'
    } else if d == 7 {
        '7'
    } else if d == 8 {
        '8'
    } else if d == 9 {
        '9'
    } else {
        '0'
    }
}

/// The value of a digit character, -1 for any other character.
pub open spec fn digit_val(c: char) -> int {
    if c == '0' {
        0
    } else if c == '1' {
        1
    } else if c == '2' {
        2
    } else if c == '3' {
        3
    } else if c == '4' {
        4
    } else if c == '5' {
        5
    } else if c == '6' {
        6
    } else if c == '7' {
        7
    } else if c == '8' {
        8
    } else if c == '9' {
        9
    } else {
        -1
    }
}

pub open spec fn is_digit(c: char) -> bool {
    digit_val(c) >= 0
}

/// The decimal digits of a nonnegative value, most significant first.
pub open spec fn dec_digits(n: nat) -> Seq<char>
    decreases n,
{
    if n < 10 {
        seq![digit_char(n as int)]
    } else {
        dec_digits(n / 10) + seq![digit_char((n % 10) as int)]
    }
}

/// The decimal text of a signed value.
pub open spec fn dec_int(n: int) -> Seq<char> {
    if n >= 0 {
        dec_digits(n as nat)
    } else {
        seq!['-'] + dec_digits((-n) as nat)
    }
}

pub open spec fn all_digits(s: Seq<char>) -> bool {
    forall|i: int| 0 <= i < s.len() ==> is_digit(#[trigger] s[i])
}

/// The value of a digit string, most significant first.
pub open spec fn digits_val(s: Seq<char>) -> int
    decreases s.len(),
{
    if s.len() == 0 {
        0
    } else {
        digits_val(s.drop_last()) * 10 + digit_val(s.last())
    }
}

/// Parsing of an unsigned decimal: at least one digit, digits only.
pub open spec fn parse_uint(s: Seq<char>) -> Option<int> {
    if s.len() > 0 && all_digits(s) {
        Some(digits_val(s))
    } else {
        None
    }
}

/// Parsing of a signed decimal: an optional `-` or `+`, then digits.
pub open spec fn parse_int(s: Seq<char>) -> Option<int> {
    if s.len() > 0 && (s[0] == '-' || s[0] == '+') {
        match parse_uint(s.skip(1)) {
            Some(v) => Some(
                if s[0] == '-' {
                    -v
                } else {
                    v
                },
            ),
            None => None,
        }
    } else {
        parse_uint(s)
    }
}

pub open spec fn parse_u32_spec(s: Seq<char>) -> Option<u32> {
    if s.len() > 0 && s[0] == '-' {
        None
    } else {
        match parse_int(s) {
            Some(v) => if 0 <= v <= u32::MAX {
                Some(v as u32)
            } else {
                None
            },
            None => None,
        }
    }
}

pub open spec fn parse_i64_spec(s: Seq<char>) -> Option<i64> {
    match parse_int(s) {
        Some(v) => if i64::MIN <= v <= i64::MAX {
            Some(v as i64)
        } else {
            None
        },
        None => None,
    }
}

pub open spec fn parse_i8_spec(s: Seq<char>) -> Option<i8> {
    match parse_int(s) {
        Some(v) => if i8::MIN <= v <= i8::MAX {
            Some(v as i8)
        } else {
            None
        },
        None => None,
    }
}

pub proof fn lemma_dec_digits_all_digits(n: nat)
    ensures
        dec_digits(n).len() > 0,
        all_digits(dec_digits(n)),
    decreases n,
{
    if n >= 10 {
        lemma_dec_digits_all_digits(n / 10);
        assert forall|i: int|
            0 <= i < dec_digits(n).len() implies is_digit(#[trigger] dec_digits(n)[i]) by {
            if i < dec_digits(n / 10).len() {
                assert(dec_digits(n)[i] == dec_digits(n / 10)[i]);
            }
        }
    }
}

/// A digit string never begins with a sign.
pub proof fn lemma_dec_digits_head(n: nat)
    ensures
        dec_digits(n)[0] != '-',
        dec_digits(n)[0] != '+',
    decreases n,
{
    if n >= 10 {
        lemma_dec_digits_head(n / 10);
        assert(dec_digits(n)[0] == dec_digits(n / 10)[0]);
    }
}

/// Formatting then parsing an unsigned value gives the value back.
pub proof fn lemma_dec_digits_val(n: nat)
    ensures
        digits_val(dec_digits(n)) == n,
        parse_uint(dec_digits(n)) == Some(n as int),
    decreases n,
{
    lemma_dec_digits_all_digits(n);
    if n < 10 {
        assert(dec_digits(n).drop_last() =~= Seq::<char>::empty());
        assert(digits_val(Seq::<char>::empty()) == 0);
        assert(dec_digits(n).last() == digit_char(n as int));
        assert(digit_val(digit_char(n as int)) == n);
    } else {
        lemma_dec_digits_val(n / 10);
        let s = dec_digits(n);
        assert(s.drop_last() =~= dec_digits(n / 10));
        assert(s.last() == digit_char((n % 10) as int));
        assert(digit_val(digit_char((n % 10) as int)) == n % 10);
        lemma_fundamental_div_mod(n as int, 10);
        assert(digits_val(s) == (n / 10) * 10 + (n % 10));
    }
}

/// Formatting then parsing a signed value gives the value back.
pub proof fn lemma_dec_int_val(n: int)
    ensures
        parse_int(dec_int(n)) == Some(n),
{
    if n >= 0 {
        lemma_dec_digits_val(n as nat);
        lemma_dec_digits_head(n as nat);
        lemma_dec_digits_all_digits(n as nat);
    } else {
        lemma_dec_digits_val((-n) as nat);
        lemma_dec_digits_all_digits((-n) as nat);
        let s = dec_int(n);
        assert(s[0] == '-');
        assert(s.skip(1) =~= dec_digits((-n) as nat));
    }
}

/// A prefix of a digit string is worth no more than the whole string.
pub proof fn lemma_digits_val_prefix(s: Seq<char>, i: int)
    requires
        all_digits(s),
        0 <= i <= s.len(),
    ensures
        digits_val(s.take(i)) <= digits_val(s),
        digits_val(s) >= 0,
    decreases s.len() - i,
{
    if i == s.len() {
        assert(s.take(i) =~= s);
        lemma_digits_val_nonneg(s);
    } else {
        lemma_digits_val_prefix(s, i + 1);
        lemma_digits_val_nonneg(s.take(i));
        assert(s.take(i + 1).drop_last() =~= s.take(i));
        assert(s.take(i + 1).last() == s[i]);
        assert(digits_val(s.take(i + 1)) == digits_val(s.take(i)) * 10 + digit_val(s[i]));
        assert(digits_val(s.take(i)) * 10 >= digits_val(s.take(i))) by (nonlinear_arith)
            requires digits_val(s.take(i)) >= 0;
    }
}

pub proof fn lemma_digits_val_nonneg(s: Seq<char>)
    requires
        all_digits(s),
    ensures
        digits_val(s) >= 0,
    decreases s.len(),
{
    if s.len() > 0 {
        assert(all_digits(s.drop_last())) by {
            assert(forall|i: int|
                0 <= i < s.len() - 1 ==> s.drop_last()[i] == #[trigger] s[i]);
        }
        lemma_digits_val_nonneg(s.drop_last());
        assert(is_digit(s.last()));
        assert(digits_val(s.drop_last()) * 10 >= 0) by (nonlinear_arith)
            requires digits_val(s.drop_last()) >= 0;
    }
}

/// The digit character for a value 0..=9.
pub fn digit_char_exec(d: u64) -> (r: char)
    requires
        d < 10,
    ensures
        r == digit_char(d as int),
{
    if d == 0 {
        '0'
    } else if d == 1 {
        '1'
    } else if d == 2 {
        '2'
    } else if d == 3 {
        '3'
    } else if d == 4 {
        '4'
    } else if d == 5 {
        '5'
    } else if d == 6 {
        '6'
    } else if d == 7 {
        '7'
    } else if d == 8 {
        '8'
    } else {
        '9'
    }
}

/// The value of a digit character, or `None`.
pub fn digit_val_exec(c: char) -> (r: Option<u64>)
    ensures
        r matches Some(v) ==> v as int == digit_val(c) && is_digit(c),
        r is None ==> !is_digit(c),
{
    if c == '0' {
        Some(0)
    } else if c == '1' {
        Some(1)
    } else if c == '2' {
        Some(2)
    } else if c == '3' {
        Some(3)
    } else if c == '4' {
        Some(4)
    } else if c == '5' {
        Some(5)
    } else if c == '6' {
        Some(6)
    } else if c == '7' {
        Some(7)
    } else if c == '8' {
        Some(8)
    } else if c == '9' {
        Some(9)
    } else {
        None
    }
}

/// The decimal digits of an unsigned value.
pub fn u64_to_chars(n: u64) -> (r: Vec<char>)
    ensures
        r@ == dec_digits(n as nat),
{
    if n == 0 {
        let mut v: Vec<char> = Vec::new();
        v.push('0');
        proof {
            assert(v@ =~= dec_digits(0));
        }
        return v;
    }
    let mut v: Vec<char> = Vec::new();
    let mut m: u64 = n;
    while m > 0
        invariant
            dec_digits(n as nat) == (if m == 0 {
                Seq::<char>::empty()
            } else {
                dec_digits(m as nat)
            }) + v@,
        decreases m,
    {
        let d: u64 = m % 10;
        let c = digit_char_exec(d);
        proof {
            assert(dec_digits(m as nat) =~= (if m / 10 == 0 {
                Seq::<char>::empty()
            } else {
                dec_digits((m / 10) as nat)
            }) + seq![digit_char((m % 10) as int)]);
        }
        v.insert(0, c);
        m = m / 10;
        proof {
            assert((if m == 0 {
                Seq::<char>::empty()
            } else {
                dec_digits(m as nat)
            }) + v@ =~= dec_digits(n as nat));
        }
    }
    proof {
        assert(Seq::<char>::empty() + v@ =~= v@);
    }
    v
}

/// The decimal text of a signed value.
pub fn i64_to_chars(n: i64) -> (r: Vec<char>)
    ensures
        r@ == dec_int(n as int),
{
    if n >= 0 {
        u64_to_chars(n as u64)
    } else {
        let mag: u64 = if n == i64::MIN {
            9_223_372_036_854_775_808u64
        } else {
            (-n) as u64
        };
        let mut v = u64_to_chars(mag);
        v.insert(0, '-');
        proof {
            assert(v@ =~= seq!['-'] + dec_digits(mag as nat));
        }
        v
    }
}

/// Parse the digits of `s` from position `from` to the end as an unsigned
/// value of at most `limit`.
fn parse_digits_limit(s: &Vec<char>, from: usize, limit: u64) -> (r: Option<u64>)
    requires
        from <= s@.len(),
        limit <= 9_300_000_000_000_000_000u64,
    ensures
        r matches Some(v) ==> parse_uint(s@.skip(from as int)) == Some(v as int) && v <= limit,
        r is None ==> (parse_uint(s@.skip(from as int)) is None || (parse_uint(
            s@.skip(from as int),
        ) matches Some(v) && v > limit)),
{
    let n = s.len();
    if from == n {
        return None;
    }
    let ghost body = s@.skip(from as int);
    let mut acc: u64 = 0;
    let mut i: usize = from;
    while i < n
        invariant
            from <= i <= n,
            n == s@.len(),
            body == s@.skip(from as int),
            all_digits(body.take(i - from)),
            acc as int == digits_val(body.take(i - from)),
            acc <= limit,
            limit <= 9_300_000_000_000_000_000u64,
        decreases n - i,
    {
        let c = s[i];
        proof {
            assert(body[i - from] == s@[i as int]);
        }
        let d = match digit_val_exec(c) {
            Some(d) => d,
            None => {
                proof {
                    assert(!is_digit(body[i - from]));
                    assert(!all_digits(body));
                }
                return None;
            },
        };
        proof {
            assert(body.take(i - from + 1).drop_last() =~= body.take(i - from));
            assert(body.take(i - from + 1).last() == body[i - from]);
        }
        if acc > limit / 10 {
            proof {
                lemma_digits_val_nonneg(body.take(i - from));
                lemma_fundamental_div_mod(limit as int, 10);
                assert(acc as int >= limit as int / 10 + 1);
                assert(acc as int * 10 >= (limit as int / 10 + 1) * 10);
                assert(acc as int * 10 > limit);
                if all_digits(body) {
                    lemma_digits_val_prefix(body, i - from + 1);
                    assert(digits_val(body.take(i - from + 1)) == acc as int * 10 + digit_val(
                        body[i - from],
                    ));
                    assert(digits_val(body) > limit);
                }
            }
            return None;
        }
        proof {
            lemma_fundamental_div_mod(limit as int, 10);
            assert(acc as int * 10 <= (limit as int / 10) * 10);
            assert((limit as int / 10) * 10 <= limit as int);
            assert(0 <= d <= 9);
            assert(acc as int * 10 + d as int <= limit as int + 9);
        }
        let acc2: u64 = acc * 10 + d;
        if acc2 > limit {
            proof {
                if all_digits(body) {
                    lemma_digits_val_prefix(body, i - from + 1);
                    assert(digits_val(body) > limit);
                }
            }
            return None;
        }
        acc = acc2;
        i = i + 1;
    }
    proof {
        assert(body.take(n - from) =~= body);
    }
    Some(acc)
}

/// Parse a signed decimal, `None` outside `[lo_mag_neg, limit_pos]` given as
/// magnitudes: `limit_neg` bounds the magnitude of a negative value,
/// `limit_pos` a positive one.
fn parse_int_limit(s: &Vec<char>, limit_neg: u64, limit_pos: u64) -> (r: Option<(bool, u64)>)
    requires
        limit_neg <= 9_300_000_000_000_000_000u64,
        limit_pos <= 9_300_000_000_000_000_000u64,
    ensures
        r matches Some(v) ==> ({
            &&& parse_int(s@) matches Some(p)
            &&& (if v.0 {
                p == -(v.1 as int) && v.1 <= limit_neg
            } else {
                p == v.1 as int && v.1 <= limit_pos
            })
        }),
        r is None ==> (parse_int(s@) is None || (parse_int(s@) matches Some(p) && (p
            > limit_pos as int || p < -(limit_neg as int)))),
{
    if s.len() == 0 {
        return None;
    }
    let c0 = s[0];
    if c0 == '-' || c0 == '+' {
        let neg = c0 == '-';
        let limit = if neg {
            limit_neg
        } else {
            limit_pos
        };
        match parse_digits_limit(s, 1, limit) {
            Some(v) => Some((neg, v)),
            None => {
                proof {
                    lemma_digits_val_nonneg_opt(s@.skip(1));
                }
                None
            },
        }
    } else {
        match parse_digits_limit(s, 0, limit_pos) {
            Some(v) => {
                proof {
                    assert(s@.skip(0) =~= s@);
                }
                Some((false, v))
            },
            None => {
                proof {
                    assert(s@.skip(0) =~= s@);
                    lemma_digits_val_nonneg_opt(s@);
                }
                None
            },
        }
    }
}

/// A parsed unsigned value is never negative.
proof fn lemma_digits_val_nonneg_opt(s: Seq<char>)
    ensures
        parse_uint(s) matches Some(v) ==> v >= 0,
{
    if s.len() > 0 && all_digits(s) {
        lemma_digits_val_nonneg(s);
    }
}

/// Parse an unsigned 32-bit decimal (an optional `+` is accepted).
pub fn parse_u32_chars(s: &Vec<char>) -> (r: Option<u32>)
    ensures
        r == parse_u32_spec(s@),
{
    if s.len() > 0 && s[0] == '-' {
        return None;
    }
    match parse_int_limit(s, 0, u32::MAX as u64) {
        Some((neg, v)) => {
            if neg {
                Some(0)
            } else {
                Some(v as u32)
            }
        },
        None => None,
    }
}

/// Parse a signed 64-bit decimal.
pub fn parse_i64_chars(s: &Vec<char>) -> (r: Option<i64>)
    ensures
        r == parse_i64_spec(s@),
{
    match parse_int_limit(s, 9_223_372_036_854_775_808u64, i64::MAX as u64) {
        Some((neg, v)) => {
            if neg {
                if v == 9_223_372_036_854_775_808u64 {
                    Some(i64::MIN)
                } else {
                    Some(-(v as i64))
                }
            } else {
                Some(v as i64)
            }
        },
        None => None,
    }
}

/// Parse a signed 8-bit decimal.
pub fn parse_i8_chars(s: &Vec<char>) -> (r: Option<i8>)
    ensures
        r == parse_i8_spec(s@),
{
    match parse_int_limit(s, 128, 127) {
        Some((neg, v)) => {
            if neg {
                if v == 128 {
                    Some(i8::MIN)
                } else {
                    Some(-(v as i8))
                }
            } else {
                Some(v as i8)
            }
        },
        None => None,
    }
}

} // verus!
