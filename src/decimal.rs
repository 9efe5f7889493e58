use vstd::prelude::*;

verus! {

/// Ten to the power `n`.
pub open spec fn pow10(n: nat) -> nat
    decreases n,
{
    if n == 0 {
        1
    } else {
        10 * pow10((n - 1) as nat)
    }
}

pub proof fn lemma_pow10_positive(n: nat)
    ensures
        pow10(n) >= 1,
    decreases n,
{
    if n > 0 {
        lemma_pow10_positive((n - 1) as nat);
    }
}

pub proof fn lemma_pow10_monotonic(i: nat, j: nat)
    requires
        i <= j,
    ensures
        pow10(i) <= pow10(j),
    decreases j,
{
    if i < j {
        lemma_pow10_monotonic(i, (j - 1) as nat);
        lemma_pow10_positive((j - 1) as nat);
    }
}

pub proof fn lemma_pow10_19()
    ensures
        pow10(19) == 10000000000000000000nat,
{
    reveal_with_fuel(pow10, 20);
}

/// The largest number of digits a decimal numeral may have.
pub const MAX_DIGITS: u32 = 19;

/// Ten to the power `n`, for `n` up to 19.
pub fn pow10_u64(n: u32) -> (r: u64)
    requires
        n <= MAX_DIGITS,
    ensures
        r == pow10(n as nat),
{
    let mut r: u64 = 1;
    let mut i: u32 = 0;
    while i < n
        invariant
            i <= n <= MAX_DIGITS,
            r == pow10(i as nat),
        decreases n - i,
    {
        proof {
            lemma_pow10_monotonic((i + 1) as nat, 19);
            lemma_pow10_19();
        }
        r = r * 10;
        i = i + 1;
    }
    r
}

/// True when `c` is an ASCII digit.
pub open spec fn is_digit(c: char) -> bool {
    '0' <= c <= '9'
}

/// The value of an ASCII digit.
pub open spec fn digit_value(c: char) -> int {
    c as int - '0' as int
}

/// The character of a digit value from 0 to 9.
pub open spec fn digit_char(d: int) -> char {
    seq!['0', '1', '2', '3', '4', '5', '6', '7', '8', '9'][d]
}

/// A digit character and its value go back and forth.
pub proof fn lemma_digit_char(c: char)
    requires
        is_digit(c),
    ensures
        digit_char(digit_value(c)) == c,
        0 <= digit_value(c) <= 9,
{
}

/// A decimal number `units / 10^scale`, negated when `negative` holds.
#[derive(Debug, Clone, Copy, PartialEq, Eq, Structural)]
pub struct Decimal {
    pub negative: bool,
    pub units: u64,
    pub scale: u32,
}

impl Decimal {
    /// A decimal whose denominator `10^scale` fits in 64 bits.
    pub open spec fn wf(self) -> bool {
        self.scale <= MAX_DIGITS
    }

    /// Below zero.
    pub open spec fn is_below_zero(self) -> bool {
        self.negative && self.units > 0
    }

    /// Above one.
    pub open spec fn is_above_one(self) -> bool {
        !self.negative && self.units > pow10(self.scale as nat)
    }
}

/// The state of reading a numeral `digits [ "." digits ]` from the left:
/// the value of the digits seen, the number of digits after the point,
/// whether the point was seen, and the number of digits seen.
pub open spec fn scan_numeral(s: Seq<char>) -> Option<(int, nat, bool, nat)>
    decreases s.len(),
{
    if s.len() == 0 {
        Some((0, 0, false, 0))
    } else {
        match scan_numeral(s.drop_last()) {
            None => None,
            Some((units, scale, dot, n)) => {
                let c = s.last();
                if is_digit(c) {
                    Some((units * 10 + digit_value(c), if dot { scale + 1 } else { scale }, dot, n + 1))
                } else if c == '.' && !dot {
                    Some((units, scale, true, n))
                } else {
                    None
                }
            },
        }
    }
}

/// The decimal that a numeral written `[+|-] digits [ "." digits ]` stands for:
/// at least one digit and at most 19 in all, so that `units / 10^scale` is
/// exact with both parts in 64 bits. Priority texts are read as floats
/// instead (see `float_of`).
pub open spec fn decimal_of(s: Seq<char>) -> Option<Decimal> {
    let signed = s.len() > 0 && (s[0] == '+' || s[0] == '-');
    let body = if signed { s.skip(1) } else { s };
    match scan_numeral(body) {
        Some((units, scale, _dot, n)) => if 1 <= n <= MAX_DIGITS {
            Some(
                Decimal {
                    negative: signed && s[0] == '-',
                    units: units as u64,
                    scale: scale as u32,
                },
            )
        } else {
            None
        },
        None => None,
    }
}

proof fn lemma_scan_bounds(s: Seq<char>)
    ensures
        scan_numeral(s) matches Some((units, scale, dot, n)) ==> 0 <= units < pow10(n) && scale
            <= n && (!dot ==> scale == 0),
    decreases s.len(),
{
    if s.len() > 0 {
        lemma_scan_bounds(s.drop_last());
        if let Some((units, scale, dot, n)) = scan_numeral(s.drop_last()) {
            let c = s.last();
            if is_digit(c) {
                assert(pow10(n + 1) == 10 * pow10(n));
                assert((units * 10 + digit_value(c)) < pow10(n + 1)) by (nonlinear_arith)
                    requires
                        0 <= units < pow10(n),
                        0 <= digit_value(c) <= 9,
                        pow10(n + 1) == 10 * pow10(n),
                ;
            }
        }
    }
}

impl Decimal {
    /// Reads a decimal numeral such as `0.8`, `-1` or `.25`.
    pub fn parse(text: &str) -> (r: Option<Decimal>)
        ensures
            r == decimal_of(text@),
            r matches Some(d) ==> d.wf(),
    {
        let len = text.unicode_len();
        if len > 21 {
            proof {
                assert(decimal_of(text@) is None) by {
                    let s = text@;
                    let signed = s.len() > 0 && (s[0] == '+' || s[0] == '-');
                    let body = if signed { s.skip(1) } else { s };
                    lemma_scan_count(body);
                }
            }
            return None;
        }
        let mut start: usize = 0;
        let mut negative = false;
        if len > 0 {
            let c = text.get_char(0);
            if c == '+' || c == '-' {
                start = 1;
                negative = c == '-';
            }
        }
        let ghost s = text@;
        let ghost body = s.subrange(start as int, s.len() as int);
        proof {
            if start == 1 {
                assert(body =~= s.skip(1));
            } else {
                assert(body =~= s);
            }
        }
        let mut units: u64 = 0;
        let mut scale: u32 = 0;
        let mut dot = false;
        let mut n: u32 = 0;
        let mut i: usize = start;
        while i < len
            invariant
                s == text@,
                len == s.len(),
                len <= 21,
                start <= i <= len,
                body == s.subrange(start as int, len as int),
                start == (if s.len() > 0 && (s[0] == '+' || s[0] == '-') { 1usize } else { 0usize }),
                negative == (start == 1 && s[0] == '-'),
                body == (if start == 1 { s.skip(1) } else { s }),
                scan_numeral(body.take(i - start)) == Some(
                    (units as int, scale as nat, dot, n as nat),
                ),
                n <= MAX_DIGITS,
                scale <= n,
            decreases len - i,
        {
            let c = text.get_char(i);
            let ghost prefix = body.take(i - start);
            proof {
                assert(body.take(i + 1 - start).drop_last() =~= prefix);
                assert(body.take(i + 1 - start).last() == c);
                lemma_scan_bounds(prefix);
                lemma_scan_count(body.take(i + 1 - start));
            }
            if '0' <= c && c <= '9' {
                if n == MAX_DIGITS {
                    proof {
                        assert(scan_numeral(body.take(i + 1 - start)) == Some(
                            (units * 10 + digit_value(c), (if dot { scale + 1 } else { scale as int }) as nat, dot, (n + 1) as nat),
                        ));
                        lemma_scan_grows(body, i + 1 - start);
                    }
                    return None;
                }
                proof {
                    lemma_pow10_monotonic(n as nat, 18);
                    reveal_with_fuel(pow10, 20);
                    assert(units * 10 + 9 < 10000000000000000000) by (nonlinear_arith)
                        requires
                            units < pow10(n as nat),
                            pow10(n as nat) <= pow10(18),
                            pow10(18) == 1000000000000000000nat,
                    ;
                }
                units = units * 10 + (c as u64 - '0' as u64);
                if dot {
                    scale = scale + 1;
                }
                n = n + 1;
            } else if c == '.' && !dot {
                dot = true;
            } else {
                proof {
                    assert(scan_numeral(body.take(i + 1 - start)) is None);
                    lemma_scan_none_extends(body, i + 1 - start);
                }
                return None;
            }
            i = i + 1;
        }
        proof {
            assert(body.take(len - start) =~= body);
        }
        if n == 0 {
            return None;
        }
        Some(Decimal { negative, units, scale })
    }
}

/// A numeral that is read to the end counts one digit for each character
/// but the point.
proof fn lemma_scan_count(s: Seq<char>)
    ensures
        scan_numeral(s) matches Some((_units, _scale, dot, n)) ==> n <= s.len() <= n + (if dot {
            1int
        } else {
            0int
        }),
    decreases s.len(),
{
    if s.len() > 0 {
        lemma_scan_count(s.drop_last());
    }
}

/// Once the scan fails on a prefix it fails on every longer prefix.
proof fn lemma_scan_none_extends(s: Seq<char>, k: int)
    requires
        0 <= k <= s.len(),
        scan_numeral(s.take(k)) is None,
    ensures
        scan_numeral(s) is None,
    decreases s.len() - k,
{
    if k < s.len() {
        assert(s.take(k + 1).drop_last() =~= s.take(k));
        lemma_scan_none_extends(s, k + 1);
    } else {
        assert(s.take(k) =~= s);
    }
}

/// The digit count of the scan never decreases as the numeral grows.
proof fn lemma_scan_grows(s: Seq<char>, k: int)
    requires
        0 <= k <= s.len(),
        scan_numeral(s.take(k)) matches Some((_u, _sc, _d, n)) ==> n > MAX_DIGITS,
    ensures
        scan_numeral(s) matches Some((_u, _sc, _d, n)) ==> n > MAX_DIGITS,
    decreases s.len() - k,
{
    if k < s.len() {
        assert(s.take(k + 1).drop_last() =~= s.take(k));
        lemma_scan_grows(s, k + 1);
    } else {
        assert(s.take(k) =~= s);
    }
}

} // verus!
