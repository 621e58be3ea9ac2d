//! Fixed-point decimal numbers with nine fractional digits.
//!
//! Prices and amounts are carried as whole numbers of billionths, so that
//! ordering and equality never depend on a binary floating-point rounding.

use vstd::prelude::*;

verus! {

/// Number of units in one whole: `10^9`.
pub const PRICE_SCALE: u64 = 1_000_000_000;

/// A signed decimal number held as a count of billionths.
#[derive(Clone, Copy, Debug, PartialEq, Eq, Structural)]
pub struct Decimal {
    pub units: i128,
}

/// `c` is one of the ASCII digits `0` to `9`.
pub open spec fn is_digit(c: char) -> bool {
    '0' <= c && c <= '9'
}

/// The number that the ASCII digit `c` stands for; `0` for any other character.
pub open spec fn digit_value(c: char) -> nat {
    if is_digit(c) {
        (c as int - '0' as int) as nat
    } else {
        0
    }
}

/// Every character of `s` is an ASCII digit.
pub open spec fn all_digits(s: Seq<char>) -> bool {
    forall|i: int| 0 <= i < s.len() ==> is_digit(#[trigger] s[i])
}

/// The number written by the digit string `s` in base ten; `0` for the empty string.
pub open spec fn digits_value(s: Seq<char>) -> nat
    decreases s.len(),
{
    if s.len() == 0 {
        0
    } else {
        digits_value(s.drop_last()) * 10 + digit_value(s.last())
    }
}

/// `10^n`.
pub open spec fn pow10(n: nat) -> nat
    decreases n,
{
    if n == 0 {
        1
    } else {
        10 * pow10((n - 1) as nat)
    }
}

/// Length of the longest prefix of `s` that consists of digits only.
pub open spec fn digit_run(s: Seq<char>) -> nat
    decreases s.len(),
{
    if s.len() > 0 && is_digit(s[0]) {
        1 + digit_run(s.drop_first())
    } else {
        0
    }
}

/// The fraction digits `f`, read as a count of billionths and rounded half up
/// at the tenth digit.
pub open spec fn fraction_units(f: Seq<char>) -> nat {
    let kept = if f.len() <= 9 {
        f.len()
    } else {
        9
    };
    let carry: nat = if f.len() > 9 && digit_value(f[9]) >= 5 {
        1
    } else {
        0
    };
    digits_value(f.take(kept as int)) * pow10((9 - kept) as nat) + carry
}

/// The text without its leading sign, if it has one.
pub open spec fn unsigned_part(s: Seq<char>) -> Seq<char> {
    if s.len() > 0 && (s[0] == '-' || s[0] == '+') {
        s.skip(1)
    } else {
        s
    }
}

/// The text starts with a minus sign.
pub open spec fn has_minus(s: Seq<char>) -> bool {
    s.len() > 0 && s[0] == '-'
}

/// The digits before the decimal point of the unsigned text `body`.
pub open spec fn whole_digits(body: Seq<char>) -> Seq<char> {
    body.take(digit_run(body) as int)
}

/// The digits after the decimal point of the unsigned text `body`; empty
/// where `body` has no decimal point.
pub open spec fn fraction_digits(body: Seq<char>) -> Seq<char> {
    if digit_run(body) < body.len() {
        body.skip(digit_run(body) as int + 1)
    } else {
        Seq::empty()
    }
}

/// The unsigned text `body` is digits, optionally followed by a point and
/// more digits, with at least one digit in all.
pub open spec fn well_formed_body(body: Seq<char>) -> bool {
    &&& digit_run(body) < body.len() ==> body[digit_run(body) as int] == '.'
    &&& all_digits(fraction_digits(body))
    &&& whole_digits(body).len() + fraction_digits(body).len() >= 1
}

/// The number of billionths that the text `s` stands for, where `s` is a
/// decimal numeral whose whole part fits in 64 bits; `None` for any other text.
///
/// A numeral is an optional sign, digits, and optionally a point and more
/// digits, with at least one digit. Digits past the ninth fractional digit
/// are rounded half away from zero.
pub open spec fn decimal_units(s: Seq<char>) -> Option<int> {
    let body = unsigned_part(s);
    let whole = digits_value(whole_digits(body));
    if well_formed_body(body) && whole <= u64::MAX {
        let magnitude = whole * PRICE_SCALE + fraction_units(fraction_digits(body));
        Some(
            if has_minus(s) {
                -magnitude
            } else {
                magnitude as int
            },
        )
    } else {
        None
    }
}

/// The decimal that the text `s` stands for; `None` where it stands for none.
pub open spec fn decimal_of(s: Seq<char>) -> Option<Decimal> {
    match decimal_units(s) {
        Some(units) => Some(Decimal { units: units as i128 }),
        None => None,
    }
}

/// The number that the text `s` stands for, where `s` is one or more digits
/// and nothing else and the number fits in 64 bits; `None` for any other
/// text.
pub open spec fn whole_number_of(s: Seq<char>) -> Option<u64> {
    if s.len() > 0 && all_digits(s) && digits_value(s) <= u64::MAX {
        Some(digits_value(s) as u64)
    } else {
        None
    }
}

/// A prefix of a digit string is worth no more than the whole string.
pub proof fn lemma_digits_value_monotone(s: Seq<char>, i: int, j: int)
    requires
        0 <= i <= j <= s.len(),
    ensures
        digits_value(s.take(i)) <= digits_value(s.take(j)),
    decreases j - i,
{
    if i < j {
        lemma_digits_value_monotone(s, i, j - 1);
        assert(s.take(j).drop_last() =~= s.take(j - 1));
        assert(digits_value(s.take(j)) == digits_value(s.take(j - 1)) * 10 + digit_value(
            s.take(j).last(),
        ));
    }
}

/// A run of `n` digits that ends the text, or is followed by a character
/// that is no digit, is the longest digit prefix.
pub proof fn lemma_digit_run_is(s: Seq<char>, n: int)
    requires
        0 <= n <= s.len(),
        all_digits(s.take(n)),
        n < s.len() ==> !is_digit(s[n]),
    ensures
        digit_run(s) == n,
    decreases n,
{
    if n == 0 {
    } else {
        assert(s.take(n)[0] == s[0]);
        let t = s.drop_first();
        assert forall|i: int| 0 <= i < n - 1 implies is_digit(#[trigger] t.take(n - 1)[i]) by {
            assert(t.take(n - 1)[i] == s.take(n)[i + 1]);
        }
        lemma_digit_run_is(t, n - 1);
    }
}

/// A prefix of `n` digits is part of the longest digit prefix.
pub proof fn lemma_digit_run_at_least(s: Seq<char>, n: int)
    requires
        0 <= n <= s.len(),
        all_digits(s.take(n)),
    ensures
        digit_run(s) >= n,
    decreases n,
{
    if n > 0 {
        assert(s.take(n)[0] == s[0]);
        let t = s.drop_first();
        assert forall|i: int| 0 <= i < n - 1 implies is_digit(#[trigger] t.take(n - 1)[i]) by {
            assert(t.take(n - 1)[i] == s.take(n)[i + 1]);
        }
        lemma_digit_run_at_least(t, n - 1);
    }
}

/// A string of `n` characters is worth less than `10^n`.
pub proof fn lemma_digits_value_bound(s: Seq<char>)
    ensures
        digits_value(s) < pow10(s.len()),
    decreases s.len(),
{
    if s.len() > 0 {
        lemma_digits_value_bound(s.drop_last());
    }
}

/// `10^9` is the scale, and smaller powers are below it.
pub proof fn lemma_pow10_nine(n: nat)
    requires
        n <= 9,
    ensures
        pow10(9) == PRICE_SCALE,
        pow10(n) <= PRICE_SCALE,
        pow10(n) >= 1,
{
    reveal_with_fuel(pow10, 10);
}

/// The digit that `c` stands for, if it is one.
pub fn digit_of(c: char) -> (r: Option<u8>)
    ensures
        r is Some <==> is_digit(c),
        r matches Some(d) ==> d == digit_value(c),
{
    match c {
        '0' => Some(0),
        '1' => Some(1),
        '2' => Some(2),
        '3' => Some(3),
        '4' => Some(4),
        '5' => Some(5),
        '6' => Some(6),
        '7' => Some(7),
        '8' => Some(8),
        '9' => Some(9),
        _ => None,
    }
}

/// The characters of `s`, in order.
pub fn chars_of(s: &str) -> (v: Vec<char>)
    ensures
        v@ == s@,
{
    let mut v: Vec<char> = Vec::new();
    for c in it: s.chars()
        invariant
            v@.len() == it.index(),
            forall|i: int| 0 <= i < v@.len() ==> v@[i] == it.seq()[i],
            it.seq() == s@,
    {
        v.push(c);
    }
    assert(v@ =~= s@);
    v
}

impl Decimal {
    /// The decimal of `units` billionths.
    pub fn from_units(units: i128) -> (d: Decimal)
        ensures
            d.units == units,
    {
        Decimal { units }
    }

    /// Zero.
    pub fn zero() -> (d: Decimal)
        ensures
            d.units == 0,
    {
        Decimal { units: 0 }
    }

    /// The value is exactly zero.
    pub fn is_zero(&self) -> (r: bool)
        ensures
            r == (self.units == 0),
    {
        self.units == 0
    }

    /// The value is below zero.
    pub fn is_negative(&self) -> (r: bool)
        ensures
            r == (self.units < 0),
    {
        self.units < 0
    }

    /// Reads a decimal numeral: an optional sign, digits, and optionally a
    /// point and more digits. Returns `None` for any other text and for a
    /// numeral whose whole part does not fit in 64 bits.
    pub fn parse(s: &str) -> (r: Option<Decimal>)
        ensures
            r == decimal_of(s@),
            match r {
                Some(d) => decimal_units(s@) == Some(d.units as int),
                None => decimal_units(s@) is None,
            },
    {
        let v = chars_of(s);
        let n = v.len();
        let mut start: usize = 0;
        let mut negative = false;
        if n > 0 && (v[0] == '-' || v[0] == '+') {
            negative = v[0] == '-';
            start = 1;
        }
        let ghost body = unsigned_part(s@);
        assert(body =~= v@.skip(start as int));
        let (whole, end) = match scan_whole(&v, start) {
            None => {
                return None;
            },
            Some(found) => found,
        };
        let mut frac_start: usize = end;
        if end < n {
            if v[end] != '.' {
                return None;
            }
            frac_start = end + 1;
        }
        assert(fraction_digits(body) =~= v@.skip(frac_start as int));
        let fraction = match scan_fraction(&v, frac_start) {
            None => {
                return None;
            },
            Some(units) => units,
        };
        if (end - start) + (n - frac_start) == 0 {
            return None;
        }
        let magnitude: u128 = whole * 1_000_000_000 + fraction;
        let units: i128 = if negative {
            -(magnitude as i128)
        } else {
            magnitude as i128
        };
        Some(Decimal { units })
    }
}

/// Reads a whole number: one or more digits and nothing else. Returns `None`
/// for any other text and for a number that does not fit in 64 bits.
pub fn parse_u64(s: &str) -> (r: Option<u64>)
    ensures
        r == whole_number_of(s@),
{
    let v = chars_of(s);
    let n = v.len();
    assert(v@.skip(0) =~= v@);
    proof {
        lemma_digit_run_bound(v@);
        if all_digits(v@) {
            assert(v@.take(n as int) =~= v@);
            lemma_digit_run_is(v@, n as int);
        }
        if digit_run(v@) == n {
            assert(v@.take(n as int) =~= v@);
        }
    }
    if n == 0 {
        return None;
    }
    match scan_whole(&v, 0) {
        None => None,
        Some((whole, end)) => {
            if end == n {
                Some(whole as u64)
            } else {
                None
            }
        },
    }
}

/// Reads the digits of `v` from `start` on, up to the first character that is
/// no digit. Returns their value and the index where they end, or `None`
/// where the value does not fit in 64 bits.
fn scan_whole(v: &Vec<char>, start: usize) -> (r: Option<(u128, usize)>)
    requires
        start <= v@.len(),
    ensures
        match r {
            Some((whole, end)) => {
                &&& end == start + digit_run(v@.skip(start as int))
                &&& end <= v@.len()
                &&& whole == digits_value(whole_digits(v@.skip(start as int)))
                &&& whole <= u64::MAX
            },
            None => digits_value(whole_digits(v@.skip(start as int))) > u64::MAX,
        },
{
    let n = v.len();
    let ghost body = v@.skip(start as int);
    let mut i: usize = start;
    let mut whole: u128 = 0;
    assert(body.take(0) =~= Seq::<char>::empty());
    while i < n && digit_of(v[i]).is_some()
        invariant
            start <= i <= n,
            n == v@.len(),
            body == v@.skip(start as int),
            all_digits(body.take(i - start)),
            whole == digits_value(body.take(i - start)),
            whole <= u64::MAX,
        decreases n - i,
    {
        let d = digit_of(v[i]).unwrap();
        let next: u128 = whole * 10 + d as u128;
        proof {
            let k = i - start;
            assert(body[k] == v@[i as int]);
            lemma_take_digits_push(body, k);
        }
        if next > u64::MAX as u128 {
            proof {
                let k = i - start + 1;
                lemma_digit_run_at_least(body, k);
                let run = digit_run(body) as int;
                lemma_digit_run_bound(body);
                lemma_digits_value_monotone(body.take(run), k, run);
                assert(body.take(run).take(k) =~= body.take(k));
                assert(body.take(run).take(run) =~= body.take(run));
            }
            return None;
        }
        whole = next;
        i = i + 1;
    }
    proof {
        if i < n {
            assert(body[i - start] == v@[i as int]);
        }
        lemma_digit_run_is(body, i - start);
    }
    Some((whole, i))
}

/// Reads the fraction digits of `v` from `from` to its end. Returns their
/// count of billionths, or `None` where a character is no digit.
fn scan_fraction(v: &Vec<char>, from: usize) -> (r: Option<u128>)
    requires
        from <= v@.len(),
    ensures
        match r {
            Some(units) => {
                &&& all_digits(v@.skip(from as int))
                &&& units == fraction_units(v@.skip(from as int))
                &&& units <= PRICE_SCALE
            },
            None => !all_digits(v@.skip(from as int)),
        },
{
    let n = v.len();
    let ghost frac = v@.skip(from as int);
    let mut j: usize = from;
    let mut kept: usize = 0;
    let mut acc: u128 = 0;
    let mut carry: u128 = 0;
    assert(frac.take(0) =~= Seq::<char>::empty());
    while j < n
        invariant
            from <= j <= n,
            n == v@.len(),
            frac == v@.skip(from as int),
            all_digits(frac.take(j - from)),
            kept == (if j - from <= 9 {
                j - from
            } else {
                9
            }),
            acc == digits_value(frac.take(kept as int)),
            carry == (if j - from > 9 && digit_value(frac[9]) >= 5 {
                1u128
            } else {
                0u128
            }),
        decreases n - j,
    {
        let ghost k = j - from;
        assert(frac[k] == v@[j as int]);
        match digit_of(v[j]) {
            None => {
                return None;
            },
            Some(d) => {
                proof {
                    lemma_take_digits_push(frac, k);
                }
                if kept < 9 {
                    proof {
                        lemma_digits_value_bound(frac.take(k));
                        lemma_pow10_nine(k as nat);
                    }
                    acc = acc * 10 + d as u128;
                    kept = kept + 1;
                } else if j - from == 9 {
                    if d >= 5 {
                        carry = 1;
                    }
                }
                j = j + 1;
            },
        }
    }
    assert(frac.take(frac.len() as int) =~= frac);
    let mut padded: usize = kept;
    proof {
        lemma_digits_value_bound(frac.take(kept as int));
        lemma_pow10_nine(kept as nat);
        assert(pow10((padded - kept) as nat) == 1);
        assert(acc == digits_value(frac.take(kept as int)) * 1);
    }
    while padded < 9
        invariant
            kept <= padded <= 9,
            acc == digits_value(frac.take(kept as int)) * pow10((padded - kept) as nat),
            acc < pow10(padded as nat),
        decreases 9 - padded,
    {
        proof {
            lemma_pow10_nine(padded as nat);
            lemma_pow10_nine((padded + 1) as nat);
            let base = digits_value(frac.take(kept as int));
            let p = pow10((padded - kept) as nat);
            assert(pow10((padded + 1 - kept) as nat) == 10 * p);
            assert(base * (10 * p) == 10 * (base * p)) by (nonlinear_arith);
        }
        acc = acc * 10;
        padded = padded + 1;
    }
    proof {
        lemma_pow10_nine(9);
    }
    Some(acc + carry)
}

/// Taking one more digit multiplies the value by ten and adds the digit.
pub proof fn lemma_take_digits_push(s: Seq<char>, k: int)
    requires
        0 <= k < s.len(),
        all_digits(s.take(k)),
        is_digit(s[k]),
    ensures
        all_digits(s.take(k + 1)),
        digits_value(s.take(k + 1)) == digits_value(s.take(k)) * 10 + digit_value(s[k]),
{
    assert(s.take(k + 1).drop_last() =~= s.take(k));
    assert(s.take(k + 1).last() == s[k]);
    assert forall|x: int| 0 <= x < k + 1 implies is_digit(#[trigger] s.take(k + 1)[x]) by {
        if x < k {
            assert(s.take(k + 1)[x] == s.take(k)[x]);
        }
    }
}

/// The longest digit prefix is no longer than the text.
pub proof fn lemma_digit_run_bound(s: Seq<char>)
    ensures
        digit_run(s) <= s.len(),
        all_digits(s.take(digit_run(s) as int)),
    decreases s.len(),
{
    if s.len() > 0 && is_digit(s[0]) {
        let t = s.drop_first();
        lemma_digit_run_bound(t);
        let n = digit_run(s) as int;
        assert forall|i: int| 0 <= i < n implies is_digit(#[trigger] s.take(n)[i]) by {
            if i > 0 {
                assert(s.take(n)[i] == t.take(n - 1)[i - 1]);
            }
        }
    }
}

} // verus!
