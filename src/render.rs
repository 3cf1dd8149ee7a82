//! Rendering of static values as CSS value text, with the `px` unit rule.
use vstd::prelude::*;
use vstd::string::StrSliceExecFns;
use crate::hash::hex_digit;
use crate::num::{Num, num_wf};

verus! {

/// A value that a static expression reduces to.
#[derive(Clone, Debug)]
pub enum StaticValue {
    Str(Vec<char>),
    Num(Num),
}

/// What a static value is: a text or a number.
pub enum Val {
    Str(Seq<char>),
    Num(Num),
}

impl View for StaticValue {
    type V = Val;

    open spec fn view(&self) -> Val {
        match self {
            StaticValue::Str(s) => Val::Str(s@),
            StaticValue::Num(n) => Val::Num(*n),
        }
    }
}

/// The decimal digits of `m`, most significant first.
pub open spec fn digits(m: nat) -> Seq<char>
    decreases m,
{
    if m < 10 {
        seq![hex_digit(m)]
    } else {
        digits(m / 10) + seq![hex_digit(m % 10)]
    }
}

/// A magnitude and scale with the trailing fractional zeros dropped.
pub open spec fn norm(mag: nat, scale: nat) -> (nat, nat)
    decreases scale,
{
    if scale > 0 && mag % 10 == 0 {
        norm(mag / 10, (scale - 1) as nat)
    } else {
        (mag, scale)
    }
}

/// `n` zeros.
pub open spec fn zeros(n: nat) -> Seq<char> {
    Seq::new(n, |i: int| '0')
}

/// The digits of `mag / 10^scale`, with a point before the last `scale` digits
/// and at least one digit before the point.
pub open spec fn point_form(mag: nat, scale: nat) -> Seq<char> {
    let d = digits(mag);
    if scale == 0 {
        d
    } else {
        let p = if d.len() <= scale { zeros((scale + 1 - d.len()) as nat) + d } else { d };
        p.subrange(0, p.len() - scale) + seq!['.'] + p.subrange(p.len() - scale, p.len() as int)
    }
}

/// The absolute value of an integer.
pub open spec fn abs(x: int) -> nat {
    if x < 0 { (-x) as nat } else { x as nat }
}

/// The shortest decimal text of a number: an integer when it has no fractional
/// part, else its digits with a point and no trailing zero.
pub open spec fn render_num(n: Num) -> Seq<char> {
    let (m, s) = norm(abs(n.mant as int), n.scale as nat);
    (if n.mant < 0 { seq!['-'] } else { Seq::empty() }) + point_form(m, s)
}

/// The kebab-case properties whose numeric values take no unit.
pub open spec fn is_unitless(p: Seq<char>) -> bool {
    p == "opacity"@ || p == "z-index"@ || p == "line-height"@ || p == "flex"@ || p
        == "flex-grow"@ || p == "flex-shrink"@ || p == "order"@ || p == "font-weight"@ || p
        == "tab-size"@ || p == "orphans"@ || p == "widows"@ || p == "counter-increment"@ || p
        == "counter-reset"@
}

/// The CSS text of a value under the kebab-case property `p`: strings as they
/// are; numbers in shortest decimal form, followed by `px` unless the property
/// is unitless or the number is zero.
pub open spec fn render_value(v: Val, p: Seq<char>) -> Seq<char> {
    match v {
        Val::Str(s) => s,
        Val::Num(n) => if is_unitless(p) {
            render_num(n)
        } else if n.mant == 0 {
            seq!['0']
        } else {
            render_num(n) + seq!['p', 'x']
        },
    }
}

/// Whether a text ends with `px`.
pub open spec fn ends_with_px(t: Seq<char>) -> bool {
    t.len() >= 2 && t[t.len() - 2] == 'p' && t[t.len() - 1] == 'x'
}

fn digit_exec(d: u64) -> (c: char)
    requires
        d < 10,
    ensures
        c == hex_digit(d as nat),
{
    if d == 0 { '0' } else if d == 1 { '1' } else if d == 2 { '2' } else if d == 3 { '3' }
    else if d == 4 { '4' } else if d == 5 { '5' } else if d == 6 { '6' } else if d == 7 { '7' }
    else if d == 8 { '8' } else { '9' }
}

/// The decimal digits of `m`.
pub fn digits_exec(m: u64) -> (r: Vec<char>)
    ensures
        r@ == digits(m as nat),
    decreases m,
{
    if m < 10 {
        vec![digit_exec(m)]
    } else {
        let mut r = digits_exec(m / 10);
        r.push(digit_exec(m % 10));
        r
    }
}

proof fn lemma_digits_len(m: nat)
    ensures
        digits(m).len() >= 1,
    decreases m,
{
    if m >= 10 {
        lemma_digits_len(m / 10);
    }
}

/// The shortest decimal text of `n`.
pub fn render_num_exec(n: Num) -> (r: Vec<char>)
    ensures
        r@ == render_num(n),
{
    let mut mag: u64 = if n.mant < 0 { (-(n.mant as i128)) as u64 } else { n.mant as u64 };
    let mut scale: u32 = n.scale;
    assert(norm(abs(n.mant as int), n.scale as nat) == norm(mag as nat, scale as nat));
    while scale > 0 && mag % 10 == 0
        invariant
            norm(abs(n.mant as int), n.scale as nat) == norm(mag as nat, scale as nat),
        decreases scale,
    {
        mag = mag / 10;
        scale = scale - 1;
    }
    let d = digits_exec(mag);
    proof {
        lemma_digits_len(mag as nat);
    }
    let mut out: Vec<char> = Vec::new();
    if n.mant < 0 {
        out.push('-');
    }
    let ghost sign = out@;
    if scale == 0 {
        let mut i: usize = 0;
        while i < d.len()
            invariant
                i <= d@.len(),
                out@ == sign + d@.subrange(0, i as int),
            decreases d@.len() - i,
        {
            out.push(d[i]);
            i = i + 1;
            proof {
                assert(d@.subrange(0, i as int) == d@.subrange(0, i - 1) + seq![d@[i - 1]]);
            }
        }
        assert(d@.subrange(0, d@.len() as int) == d@);
        return out;
    }
    let mut p: Vec<char> = Vec::new();
    if d.len() <= scale as usize {
        let pad: usize = scale as usize - d.len() + 1;
        let mut k: usize = 0;
        while k < pad
            invariant
                k <= pad,
                p@ == zeros(k as nat),
            decreases pad - k,
        {
            p.push('0');
            k = k + 1;
            proof {
                assert(p@ =~= zeros(k as nat));
            }
        }
    }
    let ghost zs = p@;
    let mut i: usize = 0;
    while i < d.len()
        invariant
            i <= d@.len(),
            p@ == zs + d@.subrange(0, i as int),
        decreases d@.len() - i,
    {
        p.push(d[i]);
        i = i + 1;
        proof {
            assert(d@.subrange(0, i as int) == d@.subrange(0, i - 1) + seq![d@[i - 1]]);
        }
    }
    proof {
        assert(d@.subrange(0, d@.len() as int) == d@);
        if d@.len() > scale {
            assert(zs.len() == 0);
            assert(p@ =~= d@);
        }
    }
    let cut: usize = p.len() - scale as usize;
    let mut j: usize = 0;
    while j < p.len()
        invariant
            cut < p@.len(),
            j <= p@.len(),
            j <= cut ==> out@ == sign + p@.subrange(0, j as int),
            j > cut ==> out@ == sign + p@.subrange(0, cut as int) + seq!['.'] + p@.subrange(
                cut as int,
                j as int,
            ),
        decreases p@.len() - j,
    {
        if j == cut {
            out.push('.');
            assert(p@.subrange(cut as int, cut as int).len() == 0);
            assert(out@ =~= sign + p@.subrange(0, cut as int) + seq!['.'] + p@.subrange(
                cut as int,
                cut as int,
            ));
        }
        out.push(p[j]);
        j = j + 1;
        proof {
            if j <= cut {
                assert(p@.subrange(0, j as int) == p@.subrange(0, j - 1) + seq![p@[j - 1]]);
            } else {
                assert(p@.subrange(cut as int, j as int) == p@.subrange(cut as int, j - 1)
                    + seq![p@[j - 1]]);
            }
        }
    }
    proof {
        let pf = point_form(mag as nat, scale as nat);
        assert(out@ =~= sign + pf);
    }
    out
}

/// Whether the characters of `v` are those of `s`.
pub fn chars_eq_str(v: &Vec<char>, s: &str) -> (r: bool)
    ensures
        r == (v@ == s@),
{
    let n = s.unicode_len();
    if v.len() != n {
        return false;
    }
    let mut i: usize = 0;
    while i < n
        invariant
            n == s@.len(),
            v@.len() == n,
            i <= n,
            forall|j: int| 0 <= j < i ==> v@[j] == s@[j],
        decreases n - i,
    {
        if v[i] != s.get_char(i) {
            return false;
        }
        i = i + 1;
    }
    assert(v@ =~= s@);
    true
}

/// Whether the kebab-case property `p` takes unitless numbers.
pub fn is_unitless_exec(p: &Vec<char>) -> (r: bool)
    ensures
        r == is_unitless(p@),
{
    chars_eq_str(p, "opacity") || chars_eq_str(p, "z-index") || chars_eq_str(p, "line-height")
        || chars_eq_str(p, "flex") || chars_eq_str(p, "flex-grow") || chars_eq_str(
        p,
        "flex-shrink",
    ) || chars_eq_str(p, "order") || chars_eq_str(p, "font-weight") || chars_eq_str(
        p,
        "tab-size",
    ) || chars_eq_str(p, "orphans") || chars_eq_str(p, "widows") || chars_eq_str(
        p,
        "counter-increment",
    ) || chars_eq_str(p, "counter-reset")
}

/// The CSS text of `v` under the kebab-case property `p`.
pub fn render_value_exec(v: &StaticValue, p: &Vec<char>) -> (r: Vec<char>)
    ensures
        r@ == render_value(v@, p@),
{
    match v {
        StaticValue::Str(s) => s.clone(),
        StaticValue::Num(n) => {
            if is_unitless_exec(p) {
                render_num_exec(*n)
            } else if n.mant == 0 {
                vec!['0']
            } else {
                let mut r = render_num_exec(*n);
                r.push('p');
                r.push('x');
                r
            }
        },
    }
}

proof fn lemma_digits_last(m: nat)
    ensures
        digits(m).len() >= 1,
        '0' <= digits(m).last() <= '9',
    decreases m,
{
    lemma_digits_len(m);
    if m >= 10 {
        lemma_digits_last(m / 10);
    }
}

proof fn lemma_render_num_last(n: Num)
    ensures
        render_num(n).len() >= 1,
        '0' <= render_num(n).last() <= '9',
{
    let (m, s) = norm(abs(n.mant as int), n.scale as nat);
    lemma_digits_last(m);
    let d = digits(m);
    let sign: Seq<char> = if n.mant < 0 { seq!['-'] } else { Seq::empty() };
    if s != 0 {
        let p = if d.len() <= s { zeros((s + 1 - d.len()) as nat) + d } else { d };
        assert(p.last() == d.last());
        let pf = p.subrange(0, p.len() - s) + seq!['.'] + p.subrange(p.len() - s, p.len() as int);
        assert(pf.last() == p.last());
    }
    assert((sign + point_form(m, s)).last() == point_form(m, s).last());
}

proof fn lemma_norm_zero(s: nat)
    ensures
        norm(0, s) == (0nat, 0nat),
    decreases s,
{
    if s > 0 {
        lemma_norm_zero((s - 1) as nat);
    }
}

/// A number under a property takes the `px` unit exactly when the property is
/// not unitless and the number is not zero; zero always renders as `0`.
pub proof fn lemma_unit_rule(n: Num, p: Seq<char>)
    ensures
        ends_with_px(render_value(Val::Num(n), p)) <==> (!is_unitless(p) && n.mant != 0),
        n.mant == 0 ==> render_value(Val::Num(n), p) == seq!['0'],
{
    lemma_render_num_last(n);
    if n.mant == 0 {
        lemma_norm_zero(n.scale as nat);
        assert(digits(0) == seq!['0']);
        assert(render_num(n) =~= seq!['0']);
    }
    if !is_unitless(p) && n.mant != 0 {
        let t = render_num(n) + seq!['p', 'x'];
        assert(t[t.len() - 2] == 'p' && t[t.len() - 1] == 'x');
    }
}

} // verus!
