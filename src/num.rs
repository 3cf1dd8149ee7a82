//! Exact decimal numbers: the numeric values of style declarations.
use vstd::prelude::*;

verus! {

/// The decimal number `mant / 10^scale`.
#[derive(Clone, Copy, PartialEq, Eq, Structural, Debug)]
pub struct Num {
    pub mant: i64,
    pub scale: u32,
}

/// The largest number of fractional digits a number carries.
pub const MAX_SCALE: u32 = 18;

/// The number of fractional digits that a quotient is computed to.
pub const QUOTIENT_SCALE: u32 = 9;

/// `10^n`.
pub open spec fn pow10(n: nat) -> int
    decreases n,
{
    if n == 0 { 1 } else { 10 * pow10((n - 1) as nat) }
}

/// Whether a number carries no more fractional digits than allowed.
pub open spec fn num_wf(n: Num) -> bool {
    n.scale <= MAX_SCALE
}

/// The mantissa of `n` written with `s` fractional digits.
pub open spec fn scaled(n: Num, s: nat) -> int {
    n.mant * pow10((s - n.scale) as nat)
}

/// Whether an integer fits in an `i64`.
pub open spec fn fits_i64(x: int) -> bool {
    i64::MIN <= x <= i64::MAX
}

/// The larger of two scales.
pub open spec fn max_scale(a: Num, b: Num) -> nat {
    if a.scale >= b.scale { a.scale as nat } else { b.scale as nat }
}

/// The sum (`neg == false`) or difference (`neg == true`) of two numbers, or
/// `None` when a value on the way leaves the 64-bit range.
pub open spec fn add_spec(a: Num, b: Num, neg: bool) -> Option<Num> {
    let s = max_scale(a, b);
    let x = scaled(a, s);
    let y = if neg { -scaled(b, s) } else { scaled(b, s) };
    if num_wf(a) && num_wf(b) && fits_i64(x) && fits_i64(scaled(b, s)) && fits_i64(x + y) {
        Some(Num { mant: (x + y) as i64, scale: s as u32 })
    } else {
        None
    }
}

/// The product of two numbers, or `None` when it leaves the 64-bit range or
/// needs more fractional digits than allowed.
pub open spec fn mul_spec(a: Num, b: Num) -> Option<Num> {
    let m = a.mant * b.mant;
    let s = a.scale + b.scale;
    if num_wf(a) && num_wf(b) && fits_i64(m) && s <= MAX_SCALE {
        Some(Num { mant: m as i64, scale: s as u32 })
    } else {
        None
    }
}

/// Integer division rounding toward zero.
pub open spec fn trunc_div(x: int, y: int) -> int {
    let q = (if x < 0 { -x } else { x }) / (if y < 0 { -y } else { y });
    if (x < 0) != (y < 0) { -q } else { q }
}

/// The quotient `a / b` computed to `QUOTIENT_SCALE` fractional digits and
/// rounded toward zero, or `None` when a value on the way leaves the range of
/// the computation.
pub open spec fn div_spec(a: Num, b: Num) -> Option<Num> {
    let x = a.mant * pow10((b.scale + QUOTIENT_SCALE) as nat);
    let y = b.mant * pow10(a.scale as nat);
    let q = trunc_div(x, y);
    if num_wf(a) && num_wf(b) && fits_i128(x) && fits_i64(q) && q > i64::MIN {
        Some(Num { mant: q as i64, scale: QUOTIENT_SCALE })
    } else {
        None
    }
}

/// Whether an integer fits in an `i128`.
pub open spec fn fits_i128(x: int) -> bool {
    i128::MIN < x <= i128::MAX
}

proof fn lemma_pow10_bounds(n: nat)
    ensures
        pow10(n) >= 1,
        n <= 18 ==> pow10(n) <= 1_000_000_000_000_000_000,
        n <= 36 ==> pow10(n) <= 1_000_000_000_000_000_000_000_000_000_000_000_000,
{
    lemma_pow10_pos(n);
    reveal_with_fuel(pow10, 37);
    if n <= 18 {
        lemma_pow10_mono(n, 18);
    }
    if n <= 36 {
        lemma_pow10_mono(n, 36);
    }
}

proof fn lemma_pow10_pos(n: nat)
    ensures
        pow10(n) >= 1,
    decreases n,
{
    if n > 0 {
        lemma_pow10_pos((n - 1) as nat);
    }
}

proof fn lemma_pow10_mono(a: nat, b: nat)
    requires
        a <= b,
    ensures
        pow10(a) <= pow10(b),
    decreases b,
{
    if a < b {
        lemma_pow10_mono(a, (b - 1) as nat);
        lemma_pow10_pos((b - 1) as nat);
    }
}

proof fn lemma_mul_bound(x: int, y: int)
    requires
        -0x8000_0000_0000_0000 <= x <= 0x8000_0000_0000_0000,
        -1_000_000_000_000_000_000 <= y <= 1_000_000_000_000_000_000,
    ensures
        -0x8000_0000_0000_0000 * 1_000_000_000_000_000_000 <= x * y
            <= 0x8000_0000_0000_0000 * 1_000_000_000_000_000_000,
        x != 0 && y != 0 ==> x * y != 0,
{
    assert(-0x8000_0000_0000_0000 * 1_000_000_000_000_000_000 <= x * y
        <= 0x8000_0000_0000_0000 * 1_000_000_000_000_000_000) by (nonlinear_arith)
        requires
            -0x8000_0000_0000_0000 <= x <= 0x8000_0000_0000_0000,
            -1_000_000_000_000_000_000 <= y <= 1_000_000_000_000_000_000,
    ;
    assert(x != 0 && y != 0 ==> x * y != 0) by (nonlinear_arith);
}

fn pow10_exec(n: u32) -> (r: i128)
    requires
        n <= 36,
    ensures
        r == pow10(n as nat),
{
    let mut r: i128 = 1;
    let mut k: u32 = 0;
    while k < n
        invariant
            k <= n <= 36,
            r == pow10(k as nat),
        decreases n - k,
    {
        proof {
            lemma_pow10_bounds(k as nat);
            lemma_pow10_mono(k as nat, 35);
            lemma_pow10_bounds(35);
        }
        r = r * 10;
        k = k + 1;
    }
    r
}

/// `a + b`, or `a - b` when `neg` holds; `None` when a value on the way leaves
/// the 64-bit range.
pub fn add_num(a: Num, b: Num, neg: bool) -> (r: Option<Num>)
    ensures
        r == add_spec(a, b, neg),
        r matches Some(n) ==> num_wf(n),
{
    if a.scale > MAX_SCALE || b.scale > MAX_SCALE {
        return None;
    }
    let s: u32 = if a.scale >= b.scale { a.scale } else { b.scale };
    proof {
        lemma_pow10_bounds((s - a.scale) as nat);
        lemma_pow10_bounds((s - b.scale) as nat);
    }
    let pa = pow10_exec(s - a.scale);
    let pb = pow10_exec(s - b.scale);
    proof {
        lemma_pow10_mono((s - a.scale) as nat, 18);
        lemma_pow10_mono((s - b.scale) as nat, 18);
        lemma_pow10_bounds(18);
        lemma_mul_bound(a.mant as int, pa as int);
        lemma_mul_bound(b.mant as int, pb as int);
    }
    let x: i128 = (a.mant as i128) * pa;
    let y0: i128 = (b.mant as i128) * pb;
    if x < i64::MIN as i128 || x > i64::MAX as i128 || y0 < i64::MIN as i128 || y0
        > i64::MAX as i128 {
        return None;
    }
    let y: i128 = if neg { -y0 } else { y0 };
    let m: i128 = x + y;
    if m < i64::MIN as i128 || m > i64::MAX as i128 {
        return None;
    }
    Some(Num { mant: m as i64, scale: s })
}

/// `a * b`; `None` when it leaves the 64-bit range or needs more than
/// `MAX_SCALE` fractional digits.
pub fn mul_num(a: Num, b: Num) -> (r: Option<Num>)
    ensures
        r == mul_spec(a, b),
        r matches Some(n) ==> num_wf(n),
{
    if a.scale > MAX_SCALE || b.scale > MAX_SCALE {
        return None;
    }
    proof {
        assert(-0x8000_0000_0000_0000 * 0x8000_0000_0000_0000 <= a.mant * b.mant
            <= 0x8000_0000_0000_0000 * 0x8000_0000_0000_0000) by (nonlinear_arith)
            requires
                -0x8000_0000_0000_0000 <= a.mant <= 0x8000_0000_0000_0000,
                -0x8000_0000_0000_0000 <= b.mant <= 0x8000_0000_0000_0000,
        ;
    }
    let m: i128 = (a.mant as i128) * (b.mant as i128);
    let s: u32 = a.scale + b.scale;
    if m < i64::MIN as i128 || m > i64::MAX as i128 || s > MAX_SCALE {
        return None;
    }
    Some(Num { mant: m as i64, scale: s })
}

/// `a / b` to `QUOTIENT_SCALE` fractional digits, rounded toward zero; `None`
/// when a value on the way leaves the range of the computation.
pub fn div_num(a: Num, b: Num) -> (r: Option<Num>)
    requires
        b.mant != 0,
    ensures
        r == div_spec(a, b),
        r matches Some(n) ==> num_wf(n),
{
    if a.scale > MAX_SCALE || b.scale > MAX_SCALE {
        return None;
    }
    let px = pow10_exec(b.scale + QUOTIENT_SCALE);
    let py = pow10_exec(a.scale);
    proof {
        lemma_pow10_bounds((b.scale + QUOTIENT_SCALE) as nat);
        lemma_pow10_bounds(a.scale as nat);
    }
    let am: i128 = a.mant as i128;
    let x: i128 = match am.checked_mul(px) {
        Some(v) => v,
        None => { return None; },
    };
    if x == i128::MIN {
        return None;
    }
    proof {
        lemma_pow10_mono(a.scale as nat, 18);
        lemma_pow10_bounds(18);
        lemma_mul_bound(b.mant as int, py as int);
    }
    let y: i128 = (b.mant as i128) * py;
    let ax: u128 = if x < 0 { (-x) as u128 } else { x as u128 };
    let ay: u128 = if y < 0 { (-y) as u128 } else { y as u128 };
    let q: u128 = ax / ay;
    if q > i64::MAX as u128 {
        proof {
            assert(q as int > i64::MAX);
        }
        return None;
    }
    let qi: i64 = q as i64;
    let mant: i64 = if (x < 0) != (y < 0) { -qi } else { qi };
    Some(Num { mant, scale: QUOTIENT_SCALE })
}

/// Whether `c` is one of `0-9`.
pub open spec fn is_digit(c: char) -> bool {
    '0' <= c && c <= '9'
}

/// The value of a sequence of decimal digits.
pub open spec fn digits_value(s: Seq<char>) -> int
    decreases s.len(),
{
    if s.len() == 0 {
        0
    } else {
        10 * digits_value(s.drop_last()) + (s.last() as int - '0' as int)
    }
}

/// Whether every character of `s` is a decimal digit.
pub open spec fn all_digits(s: Seq<char>) -> bool {
    forall|i: int| 0 <= i < s.len() ==> is_digit(#[trigger] s[i])
}

/// The offset of the first `.` of `s` at or after `i`, or its length when there is none.
pub open spec fn dot_from(s: Seq<char>, i: int) -> int
    decreases s.len() - i,
{
    if i < 0 || i >= s.len() {
        s.len() as int
    } else if s[i] == '.' {
        i
    } else {
        dot_from(s, i + 1)
    }
}

/// The text of a number without its sign.
pub open spec fn unsigned_part(t: Seq<char>) -> Seq<char> {
    if t.len() > 0 && t[0] == '-' { t.drop_first() } else { t }
}

/// The digits before the point.
pub open spec fn int_part(t: Seq<char>) -> Seq<char> {
    let b = unsigned_part(t);
    b.subrange(0, dot_from(b, 0))
}

/// The digits after the point; empty when there is no point.
pub open spec fn frac_part(t: Seq<char>) -> Seq<char> {
    let b = unsigned_part(t);
    let k = dot_from(b, 0);
    if k < b.len() { b.subrange(k + 1, b.len() as int) } else { Seq::empty() }
}

/// The number written as an optional `-`, one or more digits, and optionally
/// a point followed by one or more digits; `None` for any other text, for
/// more than `MAX_SCALE` fractional digits, or for a mantissa beyond 64 bits.
pub open spec fn parse_decimal_spec(t: Seq<char>) -> Option<Num> {
    let b = unsigned_part(t);
    let ip = int_part(t);
    let fp = frac_part(t);
    let m = digits_value(ip + fp);
    let mant = if t.len() > 0 && t[0] == '-' { -m } else { m };
    if ip.len() > 0 && all_digits(ip) && all_digits(fp) && (dot_from(b, 0) < b.len() ==> fp.len() > 0)
        && fp.len() <= MAX_SCALE && fits_i64(mant) {
        Some(Num { mant: mant as i64, scale: fp.len() as u32 })
    } else {
        None
    }
}

proof fn lemma_digits_value_nonneg(s: Seq<char>)
    requires
        all_digits(s),
    ensures
        digits_value(s) >= 0,
    decreases s.len(),
{
    if s.len() > 0 {
        assert(all_digits(s.drop_last())) by {
            assert forall|i: int| 0 <= i < s.drop_last().len() implies is_digit(#[trigger] s.drop_last()[i]) by {
                assert(s.drop_last()[i] == s[i]);
            }
        }
        lemma_digits_value_nonneg(s.drop_last());
        assert(is_digit(s[s.len() - 1]));
    }
}

proof fn lemma_digits_value_grows(a: Seq<char>, b: Seq<char>)
    requires
        all_digits(a + b),
    ensures
        digits_value(a + b) >= digits_value(a),
    decreases b.len(),
{
    if b.len() > 0 {
        assert((a + b).drop_last() =~= a + b.drop_last());
        assert(all_digits(a + b.drop_last())) by {
            assert forall|i: int| 0 <= i < (a + b.drop_last()).len() implies is_digit(#[trigger] (a + b.drop_last())[i]) by {
                assert((a + b.drop_last())[i] == (a + b)[i]);
            }
        }
        lemma_digits_value_grows(a, b.drop_last());
        lemma_digits_value_nonneg(a + b.drop_last());
        assert(is_digit((a + b)[(a + b).len() - 1]));
    }
}

/// Adds the digits of `t[from..to]` to the value `m` of the digits before them;
/// `None` at a character that is not a digit, or once the value passes `2^63`.
fn read_digits(t: &Vec<char>, from: usize, to: usize, m0: i128, Ghost(prev): Ghost<Seq<char>>) -> (r: Option<i128>)
    requires
        from <= to <= t@.len(),
        all_digits(prev),
        m0 == digits_value(prev),
        m0 <= 0x8000_0000_0000_0000,
    ensures
        r matches Some(m) ==> all_digits(prev + t@.subrange(from as int, to as int)) && m == digits_value(
            prev + t@.subrange(from as int, to as int),
        ) && 0 <= m <= 0x8000_0000_0000_0000,
        r is None ==> !all_digits(prev + t@.subrange(from as int, to as int)) || digits_value(
            prev + t@.subrange(from as int, to as int),
        ) > 0x8000_0000_0000_0000,
{
    let mut m: i128 = m0;
    let mut i: usize = from;
    proof {
        lemma_digits_value_nonneg(prev);
    }
    assert(prev + t@.subrange(from as int, from as int) =~= prev);
    while i < to
        invariant
            from <= i <= to <= t@.len(),
            all_digits(prev + t@.subrange(from as int, i as int)),
            m == digits_value(prev + t@.subrange(from as int, i as int)),
            0 <= m <= 0x8000_0000_0000_0000,
        decreases to - i,
    {
        let ghost acc = prev + t@.subrange(from as int, i as int);
        let ghost next = prev + t@.subrange(from as int, i as int + 1);
        assert(next =~= acc.push(t@[i as int]));
        assert(next.drop_last() =~= acc);
        let c = t[i];
        if c < '0' || c > '9' {
            proof {
                let whole = prev + t@.subrange(from as int, to as int);
                assert(whole[prev.len() + (i - from)] == c);
            }
            return None;
        }
        let d: i128 = (c as u32 - '0' as u32) as i128;
        m = m * 10 + d;
        proof {
            assert(all_digits(next)) by {
                assert forall|j: int| 0 <= j < next.len() implies is_digit(#[trigger] next[j]) by {
                    if j < acc.len() {
                        assert(next[j] == acc[j]);
                    }
                }
            }
        }
        if m > 0x8000_0000_0000_0000 {
            proof {
                let whole = prev + t@.subrange(from as int, to as int);
                if all_digits(whole) {
                    let rest = t@.subrange(i as int + 1, to as int);
                    assert(whole =~= next + rest);
                    lemma_digits_value_grows(next, rest);
                }
            }
            return None;
        }
        i = i + 1;
    }
    Some(m)
}

/// Reads a decimal number written as an optional `-`, digits, and optionally
/// a point and more digits.
pub fn parse_decimal(text: &str) -> (r: Option<Num>)
    ensures
        r == parse_decimal_spec(text@),
{
    let t = crate::text::chars_of(text);
    let n = t.len();
    let neg = n > 0 && t[0] == '-';
    let start: usize = if neg { 1 } else { 0 };
    let ghost body = unsigned_part(t@);
    proof {
        assert(body =~= t@.subrange(start as int, n as int));
    }
    let mut k: usize = start;
    while k < n && t[k] != '.'
        invariant
            start <= k <= n,
            n == t@.len(),
            body == t@.subrange(start as int, n as int),
            dot_from(body, 0) == dot_from(body, k - start),
        decreases n - k,
    {
        k = k + 1;
    }
    let frac_start: usize = if k < n { k + 1 } else { n };
    let ghost ip = int_part(t@);
    let ghost fp = frac_part(t@);
    proof {
        assert(dot_from(body, 0) == k - start);
        assert(ip =~= t@.subrange(start as int, k as int));
        assert(fp =~= t@.subrange(frac_start as int, n as int));
    }
    if k == start || (k < n && frac_start == n) || n - frac_start > MAX_SCALE as usize {
        return None;
    }
    let mi = match read_digits(&t, start, k, 0, Ghost(Seq::empty())) {
        Some(m) => m,
        None => {
            proof {
                assert(Seq::<char>::empty() + ip =~= ip);
                if all_digits(ip) && all_digits(fp) {
                    lemma_digits_value_grows(ip, fp);
                }
            }
            return None;
        },
    };
    proof {
        assert(Seq::<char>::empty() + ip =~= ip);
    }
    let m = match read_digits(&t, frac_start, n, mi, Ghost(ip)) {
        Some(m) => m,
        None => {
            proof {
                if all_digits(ip + fp) {
                    assert forall|j: int| 0 <= j < fp.len() implies is_digit(#[trigger] fp[j]) by {
                        assert((ip + fp)[ip.len() + j] == fp[j]);
                    }
                }
            }
            return None;
        },
    };
    proof {
        assert forall|j: int| 0 <= j < fp.len() implies is_digit(#[trigger] fp[j]) by {
            assert((ip + fp)[ip.len() + j] == fp[j]);
        }
        assert forall|j: int| 0 <= j < ip.len() implies is_digit(#[trigger] ip[j]) by {
            assert((ip + fp)[j] == ip[j]);
        }
    }
    let mant: i128 = if neg { -m } else { m };
    if mant < i64::MIN as i128 || mant > i64::MAX as i128 {
        return None;
    }
    Some(Num { mant: mant as i64, scale: (n - frac_start) as u32 })
}

} // verus!
