//! Decimal numerals: parsing character sequences into integers and
//! rendering integers back, with exact value specifications.

use vstd::prelude::*;
use crate::text::is_digit;

verus! {

/// Numeric value of one decimal digit character.
pub open spec fn digit_val(c: char) -> nat {
    if '0' <= c && c <= '9' {
        ((c as int) - ('0' as int)) as nat
    } else {
        0
    }
}

pub open spec fn all_digits(s: Seq<char>) -> bool {
    s.len() > 0 && forall|k: int| 0 <= k < s.len() ==> is_digit(#[trigger] s[k])
}

/// The unbounded value of a digit sequence read in base ten.
pub open spec fn digits_val(s: Seq<char>) -> nat
    decreases s.len(),
{
    if s.len() == 0 {
        0
    } else {
        digits_val(s.take(s.len() - 1)) * 10 + digit_val(s[s.len() - 1])
    }
}

/// A longer digit prefix never has a smaller value.
pub proof fn lemma_digits_val_prefix_le(s: Seq<char>, i: int)
    requires
        0 <= i <= s.len(),
    ensures
        digits_val(s.take(i)) <= digits_val(s),
    decreases s.len() - i,
{
    if i < s.len() {
        lemma_digits_val_prefix_le(s, i + 1);
        assert(s.take(i + 1).take(i) =~= s.take(i));
        assert(digits_val(s.take(i + 1)) == digits_val(s.take(i)) * 10 + digit_val(
            s.take(i + 1)[i],
        ));
    } else {
        assert(s.take(i) =~= s);
    }
}

/// Parses an unsigned decimal numeral.  Returns the value exactly when the
/// whole input is one or more digits and the value fits in `u64`.
pub fn parse_u64(v: &Vec<char>) -> (r: Option<u64>)
    ensures
        r is Some <==> all_digits(v@) && digits_val(v@) <= u64::MAX,
        r matches Some(n) ==> n == digits_val(v@),
{
    if v.len() == 0 {
        return None;
    }
    let mut acc: u64 = 0;
    let mut i: usize = 0;
    while i < v.len()
        invariant
            i <= v@.len(),
            v@.len() > 0,
            forall|k: int| 0 <= k < i ==> is_digit(#[trigger] v@[k]),
            acc == digits_val(v@.take(i as int)),
        decreases v.len() - i,
    {
        let c = v[i];
        if !('0' <= c && c <= '9') {
            return None;
        }
        let d: u64 = (c as u32 as u64) - ('0' as u32 as u64);
        proof {
            assert(d == digit_val(c));
        }
        if acc > (u64::MAX - d) / 10 {
            proof {
                assert(v@.take(i + 1 as int).take(i as int) =~= v@.take(i as int));
                assert(digits_val(v@.take(i + 1 as int)) == acc * 10 + d);
                assert(acc * 10 + d > u64::MAX) by (nonlinear_arith)
                    requires
                        acc > (u64::MAX - d) / 10,
                        d <= 9,
                        acc >= 0,
                ;
                lemma_digits_val_prefix_le(v@, i + 1 as int);
            }
            return None;
        }
        proof {
            assert(acc * 10 + d <= u64::MAX) by (nonlinear_arith)
                requires
                    acc <= (u64::MAX - d) / 10,
                    d <= 9,
                    acc >= 0,
            ;
            assert(v@.take(i + 1 as int).take(i as int) =~= v@.take(i as int));
        }
        acc = acc * 10 + d;
        i = i + 1;
    }
    proof {
        assert(v@.take(v@.len() as int) =~= v@);
    }
    Some(acc)
}

/// Whether `s` is a well-formed signed decimal numeral: an optional sign
/// followed by at least one digit.
pub open spec fn is_int_str(s: Seq<char>) -> bool {
    if s.len() == 0 {
        false
    } else if s[0] == '-' || s[0] == '+' {
        all_digits(s.skip(1))
    } else {
        all_digits(s)
    }
}

/// The mathematical value of a well-formed signed decimal numeral.
pub open spec fn int_str_val(s: Seq<char>) -> int {
    if s.len() > 0 && s[0] == '-' {
        -(digits_val(s.skip(1)) as int)
    } else if s.len() > 0 && s[0] == '+' {
        digits_val(s.skip(1)) as int
    } else {
        digits_val(s) as int
    }
}

/// Parses a signed decimal numeral into an `i64`.  Succeeds exactly when
/// the input is well formed and its value fits.
pub fn parse_i64(v: &Vec<char>) -> (r: Option<i64>)
    ensures
        r is Some <==> is_int_str(v@) && i64::MIN <= int_str_val(v@) <= i64::MAX,
        r matches Some(n) ==> n == int_str_val(v@),
{
    if v.len() == 0 {
        return None;
    }
    let c0 = v[0];
    if c0 == '-' || c0 == '+' {
        let rest = crate::text::sub_chars(v, 1, v.len());
        proof {
            assert(rest@ =~= v@.skip(1));
        }
        match parse_u64(&rest) {
            Some(m) => {
                if c0 == '-' {
                    if m <= 9223372036854775808u64 {
                        // -2^63 fits; render via two's complement boundary.
                        if m == 9223372036854775808u64 {
                            Some(i64::MIN)
                        } else {
                            Some(-(m as i64))
                        }
                    } else {
                        None
                    }
                } else {
                    if m <= i64::MAX as u64 {
                        Some(m as i64)
                    } else {
                        None
                    }
                }
            },
            None => None,
        }
    } else {
        match parse_u64(v) {
            Some(m) => {
                if m <= i64::MAX as u64 {
                    Some(m as i64)
                } else {
                    None
                }
            },
            None => None,
        }
    }
}

/// The decimal digit character for a value below ten.
pub open spec fn digit_char(d: nat) -> char {
    if d == 0 {
        '0'
    } else if d == 1 {
        '1'
    } else if d == 2 {
        '2'
    } else if d == 3 {
        '3'
    } else if d == 4 {
        '4'
    } else if d == 5 {
        '5'
    } else if d == 6 {
        '6'
    } else if d == 7 {
        '7'
    } else if d == 8 {
        '8'
    } else {
        '9'
    }
}

/// The canonical decimal numeral of `n`, without leading zeros.
pub open spec fn dec_rep(n: nat) -> Seq<char>
    decreases n,
{
    if n < 10 {
        seq![digit_char(n)]
    } else {
        dec_rep(n / 10).push(digit_char(n % 10))
    }
}

fn digit_char_exec(d: u64) -> (r: char)
    requires
        d < 10,
    ensures
        r == digit_char(d as nat),
{
    if d == 0 {
        '0'
    } else if d == 1 {
        '1'
    } else if d == 2 {
        '2'
    } else if d == 3 {
        '3'
    } else if d == 4 {
        '4'
    } else if d == 5 {
        '5'
    } else if d == 6 {
        '6'
    } else if d == 7 {
        '7'
    } else if d == 8 {
        '8'
    } else {
        '9'
    }
}

/// Renders an unsigned value as decimal characters.
pub fn u64_chars(n: u64) -> (r: Vec<char>)
    ensures
        r@ == dec_rep(n as nat),
    decreases n,
{
    if n < 10 {
        let mut r: Vec<char> = Vec::new();
        r.push(digit_char_exec(n));
        proof {
            assert(r@ =~= seq![digit_char(n as nat)]);
        }
        r
    } else {
        let mut r = u64_chars(n / 10);
        r.push(digit_char_exec(n % 10));
        r
    }
}

/// The numeral of a signed value: a minus sign before the magnitude when
/// the value is negative.
pub open spec fn dec_rep_i64(n: int) -> Seq<char> {
    if n < 0 {
        seq!['-'] + dec_rep((-n) as nat)
    } else {
        dec_rep(n as nat)
    }
}

/// Renders a signed value as decimal characters.
pub fn i64_chars(n: i64) -> (r: Vec<char>)
    ensures
        r@ == dec_rep_i64(n as int),
{
    if n >= 0 {
        u64_chars(n as u64)
    } else {
        // Magnitude computed without overflowing: -(n + 1) fits in i64.
        let m: u64 = ((-(n + 1)) as u64) + 1;
        proof {
            assert(m == -(n as int));
        }
        let digits = u64_chars(m);
        let mut r: Vec<char> = Vec::new();
        r.push('-');
        let out = crate::text::concat_chars(&r, &digits);
        proof {
            assert(r@ =~= seq!['-']);
        }
        out
    }
}

/// Reading a numeral back gives the value it renders.
pub proof fn lemma_digits_val_dec_rep(n: nat)
    ensures
        digits_val(dec_rep(n)) == n,
    decreases n,
{
    if n < 10 {
        let s = dec_rep(n);
        assert(s =~= seq![digit_char(n)]);
        assert(s.take(s.len() - 1) =~= Seq::<char>::empty());
        assert(digit_val(digit_char(n)) == n);
        assert(digits_val(s) == digits_val(s.take(s.len() - 1)) * 10 + digit_val(s[s.len() - 1]));
        assert(digits_val(s) == n);
    } else {
        lemma_digits_val_dec_rep(n / 10);
        let s = dec_rep(n);
        assert(s.take(s.len() - 1) =~= dec_rep(n / 10));
        assert(digit_val(digit_char(n % 10)) == n % 10);
        assert(s[s.len() - 1] == digit_char(n % 10));
        assert(n == (n / 10) * 10 + n % 10) by (nonlinear_arith);
        assert(digits_val(s) == digits_val(s.take(s.len() - 1)) * 10 + digit_val(s[s.len() - 1]));
        assert(digits_val(s) == n);
    }
}

/// A numeral is nonempty and made of digits only.
pub proof fn lemma_dec_rep_digits(n: nat)
    ensures
        dec_rep(n).len() >= 1,
        forall|k: int| 0 <= k < dec_rep(n).len() ==> is_digit(#[trigger] dec_rep(n)[k]),
    decreases n,
{
    if n < 10 {
        assert(is_digit(digit_char(n)));
    } else {
        lemma_dec_rep_digits(n / 10);
        assert(is_digit(digit_char(n % 10)));
        assert forall|k: int| 0 <= k < dec_rep(n).len() implies is_digit(#[trigger] dec_rep(n)[k]) by {
            if k < dec_rep(n).len() - 1 {
                assert(dec_rep(n)[k] == dec_rep(n / 10)[k]);
            }
        }
    }
}

/// The signed numeral is nonempty, starts with a minus sign exactly for
/// negative values, and otherwise holds digits only.
pub proof fn lemma_dec_rep_i64_shape(n: int)
    ensures
        dec_rep_i64(n).len() >= 1,
        n >= 0 ==> forall|k: int|
            0 <= k < dec_rep_i64(n).len() ==> is_digit(#[trigger] dec_rep_i64(n)[k]),
        n < 0 ==> dec_rep_i64(n)[0] == '-' && forall|k: int|
            1 <= k < dec_rep_i64(n).len() ==> is_digit(#[trigger] dec_rep_i64(n)[k]),
{
    if n >= 0 {
        lemma_dec_rep_digits(n as nat);
    } else {
        lemma_dec_rep_digits((-n) as nat);
        assert forall|k: int| 1 <= k < dec_rep_i64(n).len() implies is_digit(
            #[trigger] dec_rep_i64(n)[k],
        ) by {
            assert(dec_rep_i64(n)[k] == dec_rep((-n) as nat)[k - 1]);
        }
    }
}

/// Distinct values render as distinct numerals.
pub proof fn lemma_dec_rep_i64_inject(a: int, b: int)
    requires
        dec_rep_i64(a) == dec_rep_i64(b),
    ensures
        a == b,
{
    lemma_dec_rep_i64_shape(a);
    lemma_dec_rep_i64_shape(b);
    if a >= 0 && b >= 0 {
        lemma_digits_val_dec_rep(a as nat);
        lemma_digits_val_dec_rep(b as nat);
    } else if a < 0 && b < 0 {
        assert(dec_rep((-a) as nat) =~= dec_rep_i64(a).skip(1));
        assert(dec_rep((-b) as nat) =~= dec_rep_i64(b).skip(1));
        lemma_digits_val_dec_rep((-a) as nat);
        lemma_digits_val_dec_rep((-b) as nat);
    } else if a < 0 {
        assert(dec_rep_i64(a)[0] == '-');
        assert(is_digit(dec_rep_i64(b)[0]));
    } else {
        assert(dec_rep_i64(b)[0] == '-');
        assert(is_digit(dec_rep_i64(a)[0]));
    }
}

/// Renders a signed value as a `String`.
pub fn i64_string(n: i64) -> (s: String)
    ensures
        s@ == dec_rep_i64(n as int),
{
    let v = i64_chars(n);
    crate::text::string_of(&v)
}

} // verus!
