//! Static evaluation of expressions: literals, arithmetic, templates and
//! theme member paths.
use vstd::prelude::*;
use vstd::string::StrSliceExecFns;
use crate::ast::{BinOp, Expr, ExprKind};
use crate::num::{Num, add_num, add_spec, div_num, div_spec, mul_num, mul_spec};
use crate::render::{StaticValue, Val, render_num, render_num_exec};
use crate::text::{chars_of, push_all};
use crate::theme::{ThemeNode, descend, descend_exec};

verus! {

broadcast use vstd::seq::axiom_seq_subrange_decreases;

/// Why a site cannot be extracted.
#[derive(Clone, Copy, PartialEq, Eq, Structural, Debug)]
pub enum ErrorKind {
    /// A theme path names no node.
    ThemeMissing,
    /// A theme path names an object, an array, a boolean or null.
    ThemeNonScalar,
    /// `theme` is used but no theme was given.
    NoTheme,
    /// A computed member access, or a member chain that does not start at an identifier.
    ComputedMember,
    /// An identifier other than `theme`.
    RuntimeIdent,
    /// Any other expression.
    NotStatic,
    /// A subtraction with a text operand.
    SubNonNumeric,
    /// A multiplication with a text operand.
    MulNonNumeric,
    /// A division by zero, or with a text operand.
    DivInvalid,
    /// A binary operator other than `+`, `-`, `*` and `/`.
    BadOperator,
    /// A number leaves the range that numbers are computed in.
    NumberRange,
    /// An object key that is neither an identifier nor a string literal.
    UnsupportedKey,
    /// A spread other than `...container(...)`.
    UnsupportedSpread,
    /// `container(...)` with other than one or two arguments.
    ContainerArity,
    /// A `container(...)` argument that is not a string literal; the detail
    /// names which one.
    ContainerArg,
    /// Objects nested so deeply that their indentation would not fit in memory.
    TooDeep,
    /// A `globalCss` interpolation that is not a literal while no theme is given.
    GlobalInterpolation,
    /// A `keyframes` interpolation that is not a literal.
    KeyframesInterpolation,
    /// The CSS engine refused the text; the detail holds its message.
    Engine,
}

/// An extraction failure: its reason, the offset of the expression it is
/// about, and a detail (the joined theme path, the identifier, or a message).
pub struct CssError {
    pub kind: ErrorKind,
    pub start: u32,
    pub detail: Vec<char>,
}

/// What an extraction failure is.
pub struct CssErr {
    pub kind: ErrorKind,
    pub start: u32,
    pub detail: Seq<char>,
}

impl View for CssError {
    type V = CssErr;

    open spec fn view(&self) -> CssErr {
        CssErr { kind: self.kind, start: self.start, detail: self.detail@ }
    }
}

/// The view of an evaluation result.
pub open spec fn res_view(r: Result<StaticValue, CssError>) -> Result<Val, CssErr> {
    match r {
        Ok(v) => Ok(v@),
        Err(e) => Err(e@),
    }
}

/// The text that a value contributes to a concatenation.
pub open spec fn val_text(v: Val) -> Seq<char> {
    match v {
        Val::Str(s) => s,
        Val::Num(n) => render_num(n),
    }
}

/// The names of a static member chain `a.b.c`, or `None` when it does not
/// start at an identifier.
pub open spec fn chain(e: Expr) -> Option<Seq<String>>
    decreases e,
{
    match e.kind {
        ExprKind::Ident(n) => Some(seq![n]),
        ExprKind::StaticMember(o, p) => match chain(*o) {
            Some(c) => Some(c.push(p)),
            None => None,
        },
        _ => None,
    }
}

/// The names of a path joined with dots.
pub open spec fn join(path: Seq<String>) -> Seq<char>
    decreases path.len(),
{
    if path.len() == 0 {
        Seq::empty()
    } else if path.len() == 1 {
        path[0]@
    } else {
        join(path.drop_last()) + seq!['.'] + path.last()@
    }
}

/// A failure with its reason, offset and detail.
pub open spec fn fail(kind: ErrorKind, start: u32, detail: Seq<char>) -> Result<Val, CssErr> {
    Err(CssErr { kind, start, detail })
}

/// The value of the theme leaf at `path`.
pub open spec fn resolve_spec(theme: ThemeNode, path: Seq<String>, start: u32) -> Result<Val, CssErr> {
    match descend(theme, path) {
        None => fail(ErrorKind::ThemeMissing, start, join(path)),
        Some(ThemeNode::Str(s)) => Ok(Val::Str(s@)),
        Some(ThemeNode::Num(n)) => Ok(Val::Num(n)),
        Some(ThemeNode::NumOutOfRange) => fail(ErrorKind::NumberRange, start, Seq::empty()),
        Some(_) => fail(ErrorKind::ThemeNonScalar, start, join(path)),
    }
}

/// A number result, or a range failure.
pub open spec fn num_result(r: Option<Num>, start: u32) -> Result<Val, CssErr> {
    match r {
        Some(n) => Ok(Val::Num(n)),
        None => fail(ErrorKind::NumberRange, start, Seq::empty()),
    }
}

/// The value of `l op r`.
pub open spec fn binary_spec(op: BinOp, l: Val, r: Val, start: u32) -> Result<Val, CssErr> {
    match op {
        BinOp::Add => match (l, r) {
            (Val::Num(a), Val::Num(b)) => num_result(add_spec(a, b, false), start),
            _ => Ok(Val::Str(val_text(l) + val_text(r))),
        },
        BinOp::Sub => match (l, r) {
            (Val::Num(a), Val::Num(b)) => num_result(add_spec(a, b, true), start),
            _ => fail(ErrorKind::SubNonNumeric, start, Seq::empty()),
        },
        BinOp::Mul => match (l, r) {
            (Val::Num(a), Val::Num(b)) => num_result(mul_spec(a, b), start),
            _ => fail(ErrorKind::MulNonNumeric, start, Seq::empty()),
        },
        BinOp::Div => match (l, r) {
            (Val::Num(a), Val::Num(b)) => if b.mant != 0 {
                num_result(div_spec(a, b), start)
            } else {
                fail(ErrorKind::DivInvalid, start, Seq::empty())
            },
            _ => fail(ErrorKind::DivInvalid, start, Seq::empty()),
        },
        BinOp::Other => fail(ErrorKind::BadOperator, start, Seq::empty()),
    }
}

/// The text chunks joined.
pub open spec fn concat_all(qs: Seq<String>) -> Seq<char>
    decreases qs.len(),
{
    if qs.len() == 0 {
        Seq::empty()
    } else {
        qs[0]@ + concat_all(qs.drop_first())
    }
}

/// The value of a member chain or identifier.
pub open spec fn member_spec(e: Expr, theme: Option<ThemeNode>) -> Result<Val, CssErr> {
    match chain(e) {
        None => fail(ErrorKind::ComputedMember, e.start, Seq::empty()),
        Some(c) => if c[0]@ == "theme"@ {
            match theme {
                None => fail(ErrorKind::NoTheme, e.start, Seq::empty()),
                Some(t) => resolve_spec(t, c.drop_first(), e.start),
            }
        } else {
            fail(ErrorKind::RuntimeIdent, e.start, c[0]@)
        },
    }
}

/// The static value of an expression, or why it has none.
pub open spec fn eval_spec(e: Expr, theme: Option<ThemeNode>) -> Result<Val, CssErr>
    decreases e,
{
    match e.kind {
        ExprKind::Str(s) => Ok(Val::Str(s@)),
        ExprKind::Num(n) => Ok(Val::Num(n)),
        ExprKind::NumOutOfRange => fail(ErrorKind::NumberRange, e.start, Seq::empty()),
        ExprKind::Binary(op, l, r) => match eval_spec(*l, theme) {
            Err(x) => Err(x),
            Ok(lv) => match eval_spec(*r, theme) {
                Err(x) => Err(x),
                Ok(rv) => binary_spec(op, lv, rv, e.start),
            },
        },
        ExprKind::Template(t) => match tpl_spec(t.quasis@, t.exprs@, theme) {
            Err(x) => Err(x),
            Ok(s) => Ok(Val::Str(s)),
        },
        ExprKind::ComputedMember => fail(ErrorKind::ComputedMember, e.start, Seq::empty()),
        ExprKind::StaticMember(_, _) => member_spec(e, theme),
        ExprKind::Ident(_) => member_spec(e, theme),
        _ => fail(ErrorKind::NotStatic, e.start, Seq::empty()),
    }
}

/// The text of a template: each chunk followed by the text of the
/// expression after it, failing at the first expression with no static value.
pub open spec fn tpl_spec(qs: Seq<String>, es: Seq<Expr>, theme: Option<ThemeNode>) -> Result<
    Seq<char>,
    CssErr,
>
    decreases es,
{
    if qs.len() == 0 {
        Ok(Seq::empty())
    } else if es.len() == 0 {
        Ok(concat_all(qs))
    } else {
        match eval_spec(es[0], theme) {
            Err(x) => Err(x),
            Ok(v) => match tpl_spec(qs.drop_first(), es.drop_first(), theme) {
                Err(x) => Err(x),
                Ok(rest) => Ok(qs[0]@ + val_text(v) + rest),
            },
        }
    }
}

/// Appends the characters of `s` to `out`.
pub fn push_str(out: &mut Vec<char>, s: &str)
    ensures
        final(out)@ == old(out)@ + s@,
{
    let n = s.unicode_len();
    let mut i: usize = 0;
    while i < n
        invariant
            n == s@.len(),
            i <= n,
            out@ == old(out)@ + s@.subrange(0, i as int),
        decreases n - i,
    {
        out.push(s.get_char(i));
        i = i + 1;
        proof {
            assert(s@.subrange(0, i as int) == s@.subrange(0, i - 1) + seq![s@[i - 1]]);
        }
    }
    assert(s@.subrange(0, n as int) == s@);
}

pub fn err(kind: ErrorKind, start: u32) -> (r: CssError)
    ensures
        r@ == (CssErr { kind, start, detail: Seq::empty() }),
{
    CssError { kind, start, detail: Vec::new() }
}

/// The text that a value contributes to a concatenation.
pub fn val_text_exec(v: &StaticValue) -> (r: Vec<char>)
    ensures
        r@ == val_text(v@),
{
    match v {
        StaticValue::Str(s) => s.clone(),
        StaticValue::Num(n) => render_num_exec(*n),
    }
}

/// The names of a static member chain.
pub fn chain_exec(e: &Expr) -> (r: Option<Vec<String>>)
    ensures
        r matches Some(c) ==> chain(*e) == Some(c@),
        r is None ==> chain(*e) is None,
    decreases e,
{
    match &e.kind {
        ExprKind::Ident(n) => {
            let mut v: Vec<String> = Vec::new();
            v.push(n.clone());
            Some(v)
        },
        ExprKind::StaticMember(o, p) => match chain_exec(o) {
            Some(mut c) => {
                c.push(p.clone());
                Some(c)
            },
            None => None,
        },
        _ => None,
    }
}

/// The names of `path` joined with dots.
pub fn join_exec(path: &Vec<String>) -> (r: Vec<char>)
    ensures
        r@ == join(path@),
{
    let mut out: Vec<char> = Vec::new();
    let mut i: usize = 0;
    while i < path.len()
        invariant
            i <= path@.len(),
            out@ == join(path@.subrange(0, i as int)),
        decreases path@.len() - i,
    {
        proof {
            let pre = path@.subrange(0, i as int + 1);
            assert(pre.drop_last() == path@.subrange(0, i as int));
        }
        if i > 0 {
            out.push('.');
        }
        let part = chars_of(path[i].as_str());
        push_all(&mut out, &part);
        i = i + 1;
    }
    assert(path@.subrange(0, path@.len() as int) == path@);
    out
}

/// The value of the theme leaf at `path`.
pub fn resolve_theme_member(theme: &ThemeNode, path: &Vec<String>, start: u32) -> (r: Result<
    StaticValue,
    CssError,
>)
    ensures
        res_view(r) == resolve_spec(*theme, path@, start),
{
    match descend_exec(theme, path) {
        None => Err(CssError { kind: ErrorKind::ThemeMissing, start, detail: join_exec(path) }),
        Some(ThemeNode::Str(s)) => Ok(StaticValue::Str(chars_of(s.as_str()))),
        Some(ThemeNode::Num(n)) => Ok(StaticValue::Num(*n)),
        Some(ThemeNode::NumOutOfRange) => Err(err(ErrorKind::NumberRange, start)),
        Some(_) => Err(
            CssError { kind: ErrorKind::ThemeNonScalar, start, detail: join_exec(path) },
        ),
    }
}

fn num_result_exec(r: Option<Num>, start: u32) -> (out: Result<StaticValue, CssError>)
    ensures
        res_view(out) == num_result(r, start),
{
    match r {
        Some(n) => Ok(StaticValue::Num(n)),
        None => Err(err(ErrorKind::NumberRange, start)),
    }
}

/// The value of `l op r`.
pub fn binary_exec(op: BinOp, l: &StaticValue, r: &StaticValue, start: u32) -> (out: Result<
    StaticValue,
    CssError,
>)
    ensures
        res_view(out) == binary_spec(op, l@, r@, start),
{
    match op {
        BinOp::Add => match (l, r) {
            (StaticValue::Num(a), StaticValue::Num(b)) => num_result_exec(add_num(*a, *b, false), start),
            _ => {
                let mut t = val_text_exec(l);
                let u = val_text_exec(r);
                push_all(&mut t, &u);
                Ok(StaticValue::Str(t))
            },
        },
        BinOp::Sub => match (l, r) {
            (StaticValue::Num(a), StaticValue::Num(b)) => num_result_exec(add_num(*a, *b, true), start),
            _ => Err(err(ErrorKind::SubNonNumeric, start)),
        },
        BinOp::Mul => match (l, r) {
            (StaticValue::Num(a), StaticValue::Num(b)) => num_result_exec(mul_num(*a, *b), start),
            _ => Err(err(ErrorKind::MulNonNumeric, start)),
        },
        BinOp::Div => match (l, r) {
            (StaticValue::Num(a), StaticValue::Num(b)) => if b.mant != 0 {
                num_result_exec(div_num(*a, *b), start)
            } else {
                Err(err(ErrorKind::DivInvalid, start))
            },
            _ => Err(err(ErrorKind::DivInvalid, start)),
        },
        BinOp::Other => Err(err(ErrorKind::BadOperator, start)),
    }
}

/// The value of a member chain or identifier.
fn member_exec(e: &Expr, theme: &Option<ThemeNode>) -> (r: Result<StaticValue, CssError>)
    ensures
        res_view(r) == member_spec(*e, *theme),
{
    match chain_exec(e) {
        None => Err(err(ErrorKind::ComputedMember, e.start)),
        Some(c) => {
            proof {
                lemma_chain_nonempty(*e);
            }
            let first = chars_of(c[0].as_str());
            if crate::render::chars_eq_str(&first, "theme") {
                match theme {
                    None => Err(err(ErrorKind::NoTheme, e.start)),
                    Some(t) => {
                        let mut rest: Vec<String> = Vec::new();
                        let mut i: usize = 1;
                        while i < c.len()
                            invariant
                                1 <= i <= c@.len(),
                                rest@ == c@.subrange(1, i as int),
                            decreases c@.len() - i,
                        {
                            rest.push(c[i].clone());
                            i = i + 1;
                            proof {
                                assert(c@.subrange(1, i as int) == c@.subrange(1, i - 1) + seq![c@[i - 1]]);
                            }
                        }
                        assert(rest@ == c@.drop_first());
                        resolve_theme_member(t, &rest, e.start)
                    },
                }
            } else {
                Err(CssError { kind: ErrorKind::RuntimeIdent, start: e.start, detail: first })
            }
        },
    }
}

proof fn lemma_chain_nonempty(e: Expr)
    requires
        chain(e) is Some,
    ensures
        chain(e)->Some_0.len() >= 1,
    decreases e,
{
    match e.kind {
        ExprKind::StaticMember(o, p) => {
            lemma_chain_nonempty(*o);
        },
        _ => {},
    }
}

/// The expressions of a template from the `i`-th on.
pub open spec fn tail_exprs(es: Seq<Expr>, i: int) -> Seq<Expr> {
    if i <= es.len() { es.subrange(i, es.len() as int) } else { Seq::empty() }
}

/// Combines a prefix with a text result.
pub open spec fn prepend(p: Seq<char>, r: Result<Seq<char>, CssErr>) -> Result<Seq<char>, CssErr> {
    match r {
        Ok(s) => Ok(p + s),
        Err(x) => Err(x),
    }
}

/// The static value of `e`, or why it has none.
pub fn eval_value_expr(e: &Expr, theme: &Option<ThemeNode>) -> (r: Result<StaticValue, CssError>)
    ensures
        res_view(r) == eval_spec(*e, *theme),
    decreases e,
{
    match &e.kind {
        ExprKind::Str(s) => Ok(StaticValue::Str(chars_of(s.as_str()))),
        ExprKind::Num(n) => Ok(StaticValue::Num(*n)),
        ExprKind::NumOutOfRange => Err(err(ErrorKind::NumberRange, e.start)),
        ExprKind::Binary(op, l, rt) => {
            let lv = match eval_value_expr(l, theme) {
                Ok(v) => v,
                Err(x) => {
                    return Err(x);
                },
            };
            let rv = match eval_value_expr(rt, theme) {
                Ok(v) => v,
                Err(x) => {
                    return Err(x);
                },
            };
            binary_exec(*op, &lv, &rv, e.start)
        },
        ExprKind::Template(t) => {
            let mut out: Vec<char> = Vec::new();
            let mut i: usize = 0;
            let n = t.quasis.len();
            let m = t.exprs.len();
            assert(t.quasis@.subrange(0, n as int) == t.quasis@);
            assert(t.exprs@.subrange(0, m as int) == t.exprs@);
            assert(prepend(out@, tpl_spec(t.quasis@, t.exprs@, *theme)) == tpl_spec(t.quasis@, t.exprs@, *theme)) by {
                match tpl_spec(t.quasis@, t.exprs@, *theme) {
                    Ok(s) => { assert(out@ + s =~= s); },
                    Err(_) => {},
                }
            }
            while i < n
                invariant
                    e.kind == ExprKind::Template(*t),
                    n == t.quasis@.len(),
                    m == t.exprs@.len(),
                    i <= n,
                    tpl_spec(t.quasis@, t.exprs@, *theme) == prepend(
                        out@,
                        tpl_spec(t.quasis@.subrange(i as int, n as int), tail_exprs(t.exprs@, i as int), *theme),
                    ),
                decreases n - i,
            {
                let ghost qs = t.quasis@.subrange(i as int, n as int);
                let ghost es = tail_exprs(t.exprs@, i as int);
                let ghost before = out@;
                let q = chars_of(t.quasis[i].as_str());
                proof {
                    assert(qs[0] == t.quasis@[i as int]);
                    assert(qs.drop_first() == t.quasis@.subrange(i as int + 1, n as int));
                }
                if i < m {
                    proof {
                        assert(es[0] == t.exprs@[i as int]);
                        assert(es.drop_first() == tail_exprs(t.exprs@, i as int + 1));
                    }
                    proof {
                        vstd::std_specs::vec::axiom_vec_index_decreases(t.exprs, i as int);
                        assert(decreases_to!(*e => e.kind));
                        assert(e.kind == ExprKind::Template(*t));
                        assert(decreases_to!(e.kind => e.kind->Template_0));
                        assert(decreases_to!(e.kind->Template_0 => e.kind->Template_0.exprs));
                        assert(decreases_to!(*e => t.exprs[i as int]));
                    }
                    let v = match eval_value_expr(&t.exprs[i], theme) {
                        Ok(v) => v,
                        Err(x) => {
                            proof {
                                assert(qs.len() > 0 && es.len() > 0);
                                assert(tpl_spec(qs, es, *theme) == Err::<Seq<char>, CssErr>(x@));
                                assert(tpl_spec(t.quasis@, t.exprs@, *theme) == Err::<Seq<char>, CssErr>(x@));
                            }
                            return Err(x);
                        },
                    };
                    push_all(&mut out, &q);
                    let vt = val_text_exec(&v);
                    push_all(&mut out, &vt);
                    proof {
                        match tpl_spec(qs.drop_first(), es.drop_first(), *theme) {
                            Ok(rest) => {
                                assert(before + (q@ + vt@ + rest) =~= out@ + rest);
                            },
                            Err(_) => {},
                        }
                    }
                } else {
                    push_all(&mut out, &q);
                    proof {
                        assert(es.len() == 0);
                        assert(tail_exprs(t.exprs@, i as int + 1).len() == 0);
                        assert(tpl_spec(qs, es, *theme) == Ok::<Seq<char>, CssErr>(concat_all(qs)));
                        let qr = qs.drop_first();
                        if qr.len() == 0 {
                            assert(concat_all(qr) == Seq::<char>::empty());
                        }
                        assert(tpl_spec(qr, tail_exprs(t.exprs@, i as int + 1), *theme)
                            == Ok::<Seq<char>, CssErr>(concat_all(qr)));
                        assert(before + (q@ + concat_all(qr)) =~= out@ + concat_all(qr));
                    }
                }
                i = i + 1;
            }
            proof {
                assert(t.quasis@.subrange(n as int, n as int).len() == 0);
                assert(out@ + Seq::<char>::empty() =~= out@);
            }
            Ok(StaticValue::Str(out))
        },
        ExprKind::ComputedMember => Err(err(ErrorKind::ComputedMember, e.start)),
        ExprKind::StaticMember(_, _) => member_exec(e, theme),
        ExprKind::Ident(_) => member_exec(e, theme),
        _ => Err(err(ErrorKind::NotStatic, e.start)),
    }
}

/// A static member path `theme.<path>` takes the value of the theme node at
/// that path: a string leaf gives its text and a number leaf its number; a
/// path that names no node fails, naming the path.
pub proof fn lemma_theme_resolution(e: Expr, theme: ThemeNode, path: Seq<String>)
    requires
        e.kind is StaticMember,
        chain(e) matches Some(c) && c.len() >= 1 && c[0]@ == "theme"@ && c.drop_first() == path,
    ensures
        descend(theme, path) matches Some(ThemeNode::Str(s)) ==> eval_spec(e, Some(theme)) == Ok::<
            Val,
            CssErr,
        >(Val::Str(s@)),
        descend(theme, path) matches Some(ThemeNode::Num(n)) ==> eval_spec(e, Some(theme)) == Ok::<
            Val,
            CssErr,
        >(Val::Num(n)),
        descend(theme, path) is None ==> eval_spec(e, Some(theme)) == Err::<Val, CssErr>(
            CssErr { kind: ErrorKind::ThemeMissing, start: e.start, detail: join(path) },
        ),
{
}

} // verus!
