use vstd::prelude::*;

use crate::decimal::{digit_value, is_digit, lemma_pow10_monotonic, lemma_pow10_19, pow10};

verus! {

/// The number of significant digits of a mantissa that are kept; later
/// digits are dropped, as a float keeps only so many.
pub const KEPT_DIGITS: u32 = 19;

/// The state of reading the mantissa of a float from the left: the value of
/// the kept digits, how many of them count (leading zeros do not), the power
/// of ten that scales them, whether the point was seen, and the number of
/// digits seen.
pub open spec fn scan_mantissa(s: Seq<char>) -> Option<(int, nat, int, bool, nat)>
    decreases s.len(),
{
    if s.len() == 0 {
        Some((0, 0, 0, false, 0))
    } else {
        match scan_mantissa(s.drop_last()) {
            None => None,
            Some((u, k, x, dot, n)) => {
                let c = s.last();
                if is_digit(c) {
                    if k < KEPT_DIGITS {
                        let u2 = u * 10 + digit_value(c);
                        Some(
                            (
                                u2,
                                if u2 > 0 { k + 1 } else { k },
                                if dot { x - 1 } else { x },
                                dot,
                                n + 1,
                            ),
                        )
                    } else {
                        Some((u, k, if dot { x } else { x + 1 }, dot, n + 1))
                    }
                } else if c == '.' && !dot {
                    Some((u, k, x, true, n))
                } else {
                    None
                }
            },
        }
    }
}

/// The value of a string of digits.
pub open spec fn digits_value(s: Seq<char>) -> int
    decreases s.len(),
{
    if s.len() == 0 {
        0
    } else {
        digits_value(s.drop_last()) * 10 + digit_value(s.last())
    }
}

/// All the characters are digits.
pub open spec fn all_digits(s: Seq<char>) -> bool {
    forall|i: int| 0 <= i < s.len() ==> is_digit(#[trigger] s[i])
}

/// The exponent written `[+|-] digits`, with at least one digit.
pub open spec fn exponent_of(s: Seq<char>) -> Option<int> {
    let signed = s.len() > 0 && (s[0] == '+' || s[0] == '-');
    let digits = if signed {
        s.skip(1)
    } else {
        s
    };
    if digits.len() >= 1 && all_digits(digits) {
        Some(
            if signed && s[0] == '-' {
                -digits_value(digits)
            } else {
                digits_value(digits)
            },
        )
    } else {
        None
    }
}

/// The position of the first `e` or `E` of `s` from `i` on, or its length.
pub open spec fn first_exp(s: Seq<char>, i: int) -> int
    decreases s.len() - i,
{
    if i >= s.len() {
        s.len() as int
    } else if s[i] == 'e' || s[i] == 'E' {
        i
    } else {
        first_exp(s, i + 1)
    }
}

/// `s` is the word written `lower`, each letter in either case.
pub open spec fn is_word(s: Seq<char>, lower: Seq<char>, upper: Seq<char>) -> bool {
    &&& s.len() == lower.len()
    &&& forall|i: int| 0 <= i < s.len() ==> (#[trigger] s[i] == lower[i] || s[i] == upper[i])
}

/// A number written as a float: infinite, or `units * 10^shift`.
pub struct FloatText {
    pub negative: bool,
    pub infinite: bool,
    pub units: int,
    pub shift: int,
}

/// The number a text writes in the forms a float is read from:
/// `[+|-]` then `inf`, `infinity` (in any case), or a mantissa
/// `digits [ "." digits ]` with at least one digit, followed by an optional
/// exponent `e [+|-] digits`. Of the mantissa, the first 19 significant
/// digits are kept. `NaN` is not a number and gives nothing.
pub open spec fn float_of(s: Seq<char>) -> Option<FloatText> {
    let signed = s.len() > 0 && (s[0] == '+' || s[0] == '-');
    let negative = signed && s[0] == '-';
    let body = if signed {
        s.skip(1)
    } else {
        s
    };
    if is_word(body, "inf"@, "INF"@) || is_word(body, "infinity"@, "INFINITY"@) {
        Some(FloatText { negative, infinite: true, units: 0, shift: 0 })
    } else {
        let i = first_exp(body, 0);
        let exponent = if i < body.len() {
            exponent_of(body.skip(i + 1))
        } else {
            Some(0)
        };
        match (scan_mantissa(body.take(i)), exponent) {
            (Some((u, _k, x, _dot, n)), Some(e)) => if n >= 1 {
                Some(FloatText { negative, infinite: false, units: u, shift: x + e })
            } else {
                None
            },
            _ => None,
        }
    }
}

/// Two shifts that place a number alike: equal, both above one, or both
/// below minus forty.
pub open spec fn same_place(a: int, b: int) -> bool {
    a == b || (a > 1 && b > 1) || (a < -40 && b < -40)
}

/// The largest exponent magnitude read exactly; a larger one is kept only
/// as being larger.
pub const EXPONENT_CAP: u128 = 1_000_000_000_000_000_000_000_000_000;

/// A number read from a float's text, the shift held in 128 bits.
pub struct FloatParts {
    pub negative: bool,
    pub infinite: bool,
    pub units: u64,
    pub shift: i128,
}

proof fn lemma_mantissa_bounds(s: Seq<char>)
    ensures
        scan_mantissa(s) matches Some((u, k, x, dot, n)) ==> 0 <= u < pow10(k) && k
            <= KEPT_DIGITS && -n <= x <= n && n <= s.len(),
    decreases s.len(),
{
    if s.len() > 0 {
        lemma_mantissa_bounds(s.drop_last());
        if let Some((u, k, x, dot, n)) = scan_mantissa(s.drop_last()) {
            let c = s.last();
            if is_digit(c) && k < KEPT_DIGITS {
                let u2 = u * 10 + digit_value(c);
                assert(pow10(k + 1) == 10 * pow10(k));
                if u == 0 {
                    assert(u2 == digit_value(c));
                } else {
                    assert(u2 < pow10(k + 1)) by (nonlinear_arith)
                        requires
                            0 <= u < pow10(k),
                            0 <= digit_value(c) <= 9,
                            pow10(k + 1) == 10 * pow10(k),
                            u2 == u * 10 + digit_value(c),
                    ;
                }
            }
        }
    }
}

proof fn lemma_first_exp(s: Seq<char>, i: int)
    requires
        0 <= i <= s.len(),
    ensures
        i <= first_exp(s, i) <= s.len(),
        first_exp(s, i) < s.len() ==> (s[first_exp(s, i)] == 'e' || s[first_exp(s, i)] == 'E'),
        forall|j: int| i <= j < first_exp(s, i) ==> !(#[trigger] s[j] == 'e' || s[j] == 'E'),
    decreases s.len() - i,
{
    if i < s.len() && !(s[i] == 'e' || s[i] == 'E') {
        lemma_first_exp(s, i + 1);
    }
}

/// True when the text from `start` is the word `lower`, in either case.
fn is_word_at(text: &str, start: usize, len: usize, lower: &str, upper: &str) -> (r: bool)
    requires
        len == text@.len(),
        start <= len,
        lower@.len() == upper@.len(),
    ensures
        r == is_word(text@.skip(start as int), lower@, upper@),
{
    let n = lower.unicode_len();
    if len - start != n {
        return false;
    }
    let ghost body = text@.skip(start as int);
    let mut i: usize = 0;
    while i < n
        invariant
            n == lower@.len(),
            n == upper@.len(),
            len == text@.len(),
            start + n == len,
            body == text@.skip(start as int),
            i <= n,
            forall|j: int| 0 <= j < i ==> (#[trigger] body[j] == lower@[j] || body[j] == upper@[j]),
        decreases n - i,
    {
        let c = text.get_char(start + i);
        proof {
            assert(body[i as int] == c);
        }
        if c != lower.get_char(i) && c != upper.get_char(i) {
            return false;
        }
        i = i + 1;
    }
    true
}

/// The position of the first `e` or `E` of the text from `start` on.
fn find_exponent(text: &str, start: usize, len: usize) -> (m: usize)
    requires
        len == text@.len(),
        start <= len,
    ensures
        start <= m <= len,
        m - start == first_exp(text@.skip(start as int), 0),
{
    let ghost body = text@.skip(start as int);
    let mut m: usize = start;
    while m < len
        invariant
            len == text@.len(),
            start <= m <= len,
            body == text@.skip(start as int),
            first_exp(body, (m - start) as int) == first_exp(body, 0),
        decreases len - m,
    {
        let c = text.get_char(m);
        proof {
            assert(body[(m - start) as int] == c);
        }
        if c == 'e' || c == 'E' {
            return m;
        }
        m = m + 1;
    }
    m
}

/// Reads the mantissa `text[start..m]` as `scan_mantissa` does; gives the
/// kept units, the shift and the number of digits, or nothing where the
/// scan fails.
fn read_mantissa(text: &str, start: usize, m: usize) -> (r: Option<(u64, i128, usize)>)
    requires
        start <= m <= text@.len(),
    ensures
        r is None <==> scan_mantissa(text@.subrange(start as int, m as int)) is None,
        r matches Some((u, x, n)) ==> (scan_mantissa(text@.subrange(start as int, m as int)) matches Some(
            (u2, _k, x2, _dot, n2),
        ) && u == u2 && x == x2 && n == n2),
{
    let ghost mant = text@.subrange(start as int, m as int);
    let mut units: u64 = 0;
    let mut kept: u32 = 0;
    let mut shift: i128 = 0;
    let mut dot = false;
    let mut count: usize = 0;
    let mut i: usize = start;
    proof {
        assert(mant.take(0) =~= Seq::<char>::empty());
    }
    while i < m
        invariant
            start <= i <= m <= text@.len(),
            mant == text@.subrange(start as int, m as int),
            scan_mantissa(mant.take((i - start) as int)) == Some(
                (units as int, kept as nat, shift as int, dot, count as nat),
            ),
            kept <= KEPT_DIGITS,
            units < pow10(kept as nat),
            -(count as int) <= shift <= count,
            count <= i - start,
        decreases m - i,
    {
        let c = text.get_char(i);
        proof {
            assert(mant.take((i + 1 - start) as int).drop_last() =~= mant.take((i - start) as int));
            assert(mant.take((i + 1 - start) as int).last() == c);
        }
        if '0' <= c && c <= '9' {
            if kept < KEPT_DIGITS {
                proof {
                    lemma_pow10_monotonic((kept + 1) as nat, 19);
                    lemma_pow10_19();
                    assert(units * 10 + 9 < 10000000000000000000) by (nonlinear_arith)
                        requires
                            units < pow10(kept as nat),
                            pow10((kept + 1) as nat) == 10 * pow10(kept as nat),
                            pow10((kept + 1) as nat) <= 10000000000000000000,
                    ;
                }
                let ghost u0 = units;
                units = units * 10 + (c as u64 - '0' as u64);
                proof {
                    crate::decimal::lemma_pow10_positive(kept as nat);
                    assert(units < pow10((kept + 1) as nat)) by (nonlinear_arith)
                        requires
                            u0 < pow10(kept as nat),
                            units == u0 * 10 + (c as int - '0' as int),
                            0 <= c as int - '0' as int <= 9,
                            pow10((kept + 1) as nat) == 10 * pow10(kept as nat),
                    ;
                }
                if units > 0 {
                    kept = kept + 1;
                }
                if dot {
                    shift = shift - 1;
                }
            } else if !dot {
                shift = shift + 1;
            }
            count = count + 1;
        } else if c == '.' && !dot {
            dot = true;
        } else {
            proof {
                assert(scan_mantissa(mant.take((i + 1 - start) as int)) is None);
                lemma_mantissa_none_extends(mant, (i + 1 - start) as int);
            }
            return None;
        }
        i = i + 1;
    }
    proof {
        assert(mant.take((m - start) as int) =~= mant);
    }
    Some((units, shift, count))
}

/// Reads the exponent `text[j..]`, written `[+|-] digits`: its value when
/// at most `EXPONENT_CAP` in size, else one of the same sign beyond it.
fn read_exponent(text: &str, j: usize, len: usize) -> (r: Option<i128>)
    requires
        len == text@.len(),
        j <= len,
    ensures
        r is None <==> exponent_of(text@.skip(j as int)) is None,
        r matches Some(e) ==> -(10 * EXPONENT_CAP + 9) <= e <= 10 * EXPONENT_CAP + 9,
        r matches Some(e) ==> (e == exponent_of(text@.skip(j as int))->Some_0 || (e > EXPONENT_CAP
            && exponent_of(text@.skip(j as int))->Some_0 > EXPONENT_CAP) || (e < -(
        EXPONENT_CAP as int) && exponent_of(text@.skip(j as int))->Some_0 < -(
        EXPONENT_CAP as int))),
{
    let ghost rest = text@.skip(j as int);
    let mut k: usize = j;
    let mut negative = false;
    if k < len {
        let c = text.get_char(k);
        if c == '+' || c == '-' {
            negative = c == '-';
            k = k + 1;
        }
    }
    let ghost digits = text@.skip(k as int);
    proof {
        let signed = rest.len() > 0 && (rest[0] == '+' || rest[0] == '-');
        if signed {
            assert(digits =~= rest.skip(1));
        } else {
            assert(digits =~= rest);
        }
    }
    if k == len {
        return None;
    }
    let start = k;
    let mut magnitude: u128 = 0;
    proof {
        assert(digits.take(0) =~= Seq::<char>::empty());
    }
    while k < len
        invariant
            len == text@.len(),
            start < len,
            start <= k <= len,
            digits == text@.skip(start as int),
            rest == text@.skip(j as int),
            digits == (if rest.len() > 0 && (rest[0] == '+' || rest[0] == '-') {
                rest.skip(1)
            } else {
                rest
            }),
            negative == (rest.len() > 0 && rest[0] == '-'),
            all_digits(digits.take((k - start) as int)),
            digits_value(digits.take((k - start) as int)) <= EXPONENT_CAP ==> magnitude
                == digits_value(digits.take((k - start) as int)),
            digits_value(digits.take((k - start) as int)) > EXPONENT_CAP ==> magnitude
                > EXPONENT_CAP,
            magnitude <= 10 * EXPONENT_CAP + 9,
        decreases len - k,
    {
        let c = text.get_char(k);
        let ghost prefix = digits.take((k - start) as int);
        let ghost next = digits.take((k + 1 - start) as int);
        proof {
            assert(next.drop_last() =~= prefix);
            assert(next.last() == c);
            assert(digits[(k - start) as int] == c);
            lemma_digits_value_nonneg(prefix);
        }
        if !('0' <= c && c <= '9') {
            proof {
                assert(!is_digit(digits[(k - start) as int]));
                assert(!all_digits(digits));
            }
            return None;
        }
        if magnitude <= EXPONENT_CAP {
            magnitude = magnitude * 10 + (c as u128 - '0' as u128);
        }
        proof {
            assert forall|t: int| 0 <= t < next.len() implies is_digit(#[trigger] next[t]) by {
                if t < prefix.len() {
                    assert(next[t] == prefix[t]);
                }
            }
        }
        k = k + 1;
    }
    proof {
        assert(digits.take((len - start) as int) =~= digits);
        lemma_digits_value_nonneg(digits);
    }
    if negative {
        Some(-(magnitude as i128))
    } else {
        Some(magnitude as i128)
    }
}

/// Reads a number in the forms a float is read from. The units are those of
/// `float_of`; the shift is the same, or places the number alike.
pub fn read_float(text: &str) -> (r: Option<FloatParts>)
    ensures
        r is None <==> float_of(text@) is None,
        r matches Some(p) ==> ({
            let f = float_of(text@)->Some_0;
            &&& p.negative == f.negative
            &&& p.infinite == f.infinite
            &&& (!p.infinite ==> p.units == f.units && same_place(p.shift as int, f.shift))
        }),
        r matches Some(p) ==> -(20 * EXPONENT_CAP as int) <= p.shift <= 20 * EXPONENT_CAP,
{
    let len = text.unicode_len();
    let ghost s = text@;
    let mut start: usize = 0;
    let mut negative = false;
    if len > 0 {
        let c = text.get_char(0);
        if c == '+' || c == '-' {
            start = 1;
            negative = c == '-';
        }
    }
    let ghost body = s.skip(start as int);
    proof {
        if start == 0 {
            assert(body =~= s);
        }
        reveal_strlit("inf");
        reveal_strlit("INF");
        reveal_strlit("infinity");
        reveal_strlit("INFINITY");
    }
    if is_word_at(text, start, len, "inf", "INF") || is_word_at(
        text,
        start,
        len,
        "infinity",
        "INFINITY",
    ) {
        return Some(FloatParts { negative, infinite: true, units: 0, shift: 0 });
    }
    let m = find_exponent(text, start, len);
    proof {
        assert(body.take((m - start) as int) =~= s.subrange(start as int, m as int));
        lemma_first_exp(body, 0);
    }
    let mantissa = read_mantissa(text, start, m);
    let (units, shift, count) = match mantissa {
        Some(parts) => parts,
        None => {
            return None;
        },
    };
    if count == 0 {
        return None;
    }
    let exponent: i128 = if m < len {
        proof {
            assert(body.skip((m - start) as int + 1) =~= s.skip(m + 1));
        }
        match read_exponent(text, m + 1, len) {
            Some(e) => e,
            None => {
                return None;
            },
        }
    } else {
        0
    };
    proof {
        lemma_mantissa_bounds(s.subrange(start as int, m as int));
    }
    Some(FloatParts { negative, infinite: false, units, shift: shift + exponent })
}

/// The units of a number read as a float have at most 19 digits.
pub proof fn lemma_float_units(s: Seq<char>)
    ensures
        float_of(s) matches Some(f) ==> 0 <= f.units < pow10(19),
{
    let signed = s.len() > 0 && (s[0] == '+' || s[0] == '-');
    let body = if signed {
        s.skip(1)
    } else {
        s
    };
    let i = first_exp(body, 0);
    lemma_first_exp(body, 0);
    lemma_mantissa_bounds(body.take(i));
    lemma_pow10_19();
    if let Some((u, k, x, dot, n)) = scan_mantissa(body.take(i)) {
        lemma_pow10_monotonic(k, 19);
        assert(u < pow10(19));
    }
}

proof fn lemma_digits_value_nonneg(s: Seq<char>)
    ensures
        all_digits(s) ==> digits_value(s) >= 0,
    decreases s.len(),
{
    if s.len() > 0 {
        assert(all_digits(s) ==> all_digits(s.drop_last())) by {
            if all_digits(s) {
                assert forall|i: int| 0 <= i < s.drop_last().len() implies is_digit(
                    #[trigger] s.drop_last()[i],
                ) by {
                    assert(s.drop_last()[i] == s[i]);
                }
            }
        }
        lemma_digits_value_nonneg(s.drop_last());
        if all_digits(s) {
            assert(is_digit(s[s.len() - 1]));
        }
    }
}

proof fn lemma_mantissa_none_extends(s: Seq<char>, k: int)
    requires
        0 <= k <= s.len(),
        scan_mantissa(s.take(k)) is None,
    ensures
        scan_mantissa(s) is None,
    decreases s.len() - k,
{
    if k < s.len() {
        assert(s.take(k + 1).drop_last() =~= s.take(k));
        lemma_mantissa_none_extends(s, k + 1);
    } else {
        assert(s.take(k) =~= s);
    }
}

} // verus!
