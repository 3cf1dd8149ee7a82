//! Lowering of object literals to raw, nested CSS text.
use vstd::prelude::*;
use crate::ast::{Expr, ExprKind, Prop, PropKey};
use crate::eval::{
    CssErr, CssError, ErrorKind, eval_spec, eval_value_expr, prepend, push_str, val_text, val_text_exec,
};
use crate::kebab::{kebab, kebab_chars};
use crate::render::{StaticValue, Val, render_value, render_value_exec};
use crate::text::{chars_of, push_all};
use crate::theme::ThemeNode;

verus! {

/// The deepest nesting of objects whose indentation (two spaces a level) fits in memory.
pub const MAX_DEPTH: usize = usize::MAX / 2;

/// A binding of a variable to the animation name of the keyframes it holds.
pub struct KfBinding {
    pub name: String,
    pub anim: Vec<char>,
}

/// Variable names with the animation names bound to them, in the order of
/// their declarations.
pub type Bindings = Seq<(Seq<char>, Seq<char>)>;

/// What bindings hold.
pub open spec fn bindings_view(bs: Seq<KfBinding>) -> Bindings {
    bs.map_values(|b: KfBinding| (b.name@, b.anim@))
}

/// The animation name bound to `name`: that of the latest binding.
pub open spec fn kf_lookup(bs: Bindings, name: Seq<char>) -> Option<Seq<char>>
    decreases bs.len(),
{
    if bs.len() == 0 {
        None
    } else if bs.last().0 == name {
        Some(bs.last().1)
    } else {
        kf_lookup(bs.drop_last(), name)
    }
}

/// `2 * n` spaces.
pub open spec fn pad(n: nat) -> Seq<char> {
    Seq::new(2 * n, |i: int| ' ')
}

/// One declaration line `<pad><prop>: <value>;\n`.
pub open spec fn decl(indent: nat, prop: Seq<char>, value: Seq<char>) -> Seq<char> {
    pad(indent) + prop + ": "@ + value + ";\n"@
}

/// A failure with no detail.
pub open spec fn lfail(kind: ErrorKind, start: u32) -> Result<Seq<char>, CssErr> {
    Err(CssErr { kind, start, detail: Seq::empty() })
}

/// The text of a template in a declaration value: an interpolation that is a
/// bare identifier bound to keyframes gives its animation name, any other is
/// evaluated statically.
pub open spec fn kf_tpl_spec(
    qs: Seq<String>,
    es: Seq<Expr>,
    theme: Option<ThemeNode>,
    kfs: Bindings,
) -> Result<Seq<char>, CssErr>
    decreases es.len(),
{
    if qs.len() == 0 {
        Ok(Seq::empty())
    } else if es.len() == 0 {
        Ok(crate::eval::concat_all(qs))
    } else {
        let piece: Result<Seq<char>, CssErr> = match es[0].kind {
            ExprKind::Ident(n) => match kf_lookup(kfs, n@) {
                Some(a) => Ok(a),
                None => match eval_spec(es[0], theme) {
                    Ok(v) => Ok(val_text(v)),
                    Err(x) => Err(x),
                },
            },
            _ => match eval_spec(es[0], theme) {
                Ok(v) => Ok(val_text(v)),
                Err(x) => Err(x),
            },
        };
        match piece {
            Err(x) => Err(x),
            Ok(p) => match kf_tpl_spec(qs.drop_first(), es.drop_first(), theme, kfs) {
                Err(x) => Err(x),
                Ok(rest) => Ok(qs[0]@ + p + rest),
            },
        }
    }
}

/// The string literal value of a `container(...)` argument.
pub open spec fn container_arg(e: Expr, what: Seq<char>) -> Result<Seq<char>, CssErr> {
    match e.kind {
        ExprKind::Str(s) => Ok(s@),
        _ => Err(CssErr { kind: ErrorKind::ContainerArg, start: e.start, detail: what }),
    }
}

/// The declarations of `container(type)` or `container(name, type)`.
pub open spec fn container_spec(args: Seq<Expr>, start: u32) -> Result<Seq<char>, CssErr> {
    if args.len() == 1 {
        match container_arg(args[0], "container type"@) {
            Err(x) => Err(x),
            Ok(t) => Ok("container-type: "@ + t),
        }
    } else if args.len() == 2 {
        match container_arg(args[0], "container name"@) {
            Err(x) => Err(x),
            Ok(n) => match container_arg(args[1], "container type"@) {
                Err(x) => Err(x),
                Ok(t) => Ok("container-type: "@ + t + ";\n  container-name: "@ + n),
            },
        }
    } else {
        lfail(ErrorKind::ContainerArity, start)
    }
}

/// Whether an expression is a call of the identifier `container`.
pub open spec fn is_container_call(e: Expr) -> bool {
    match e.kind {
        ExprKind::Call(callee, _) => match callee.kind {
            ExprKind::Ident(n) => n@ == "container"@,
            _ => false,
        },
        _ => false,
    }
}

/// The raw CSS of the members of an object literal at nesting level `indent`.
pub open spec fn obj_spec(
    ps: Seq<Prop>,
    indent: nat,
    theme: Option<ThemeNode>,
    kfs: Bindings,
) -> Result<Seq<char>, CssErr>
    decreases ps,
{
    if ps.len() == 0 {
        Ok(Seq::empty())
    } else {
        match prop_spec(ps[0], indent, theme, kfs) {
            Err(x) => Err(x),
            Ok(a) => match obj_spec(ps.drop_first(), indent, theme, kfs) {
                Err(x) => Err(x),
                Ok(b) => Ok(a + b),
            },
        }
    }
}

/// The raw CSS of one member of an object literal.
pub open spec fn prop_spec(p: Prop, indent: nat, theme: Option<ThemeNode>, kfs: Bindings) -> Result<
    Seq<char>,
    CssErr,
>
    decreases p,
{
    match p {
        Prop::KeyValue(PropKey::Unsupported(st), _) => lfail(ErrorKind::UnsupportedKey, st),
        Prop::KeyValue(PropKey::Name(k), v) => {
            let prop = kebab(k@);
            match v.kind {
                ExprKind::Object(ps) => if indent + 1 >= MAX_DEPTH {
                    lfail(ErrorKind::TooDeep, v.start)
                } else {
                    match obj_spec(ps@, indent + 1, theme, kfs) {
                        Err(x) => Err(x),
                        Ok(body) => Ok(pad(indent) + k@ + " {\n"@ + body + pad(indent) + "}\n"@),
                    }
                },
                ExprKind::Str(s) => Ok(decl(indent, prop, s@)),
                ExprKind::Num(n) => Ok(decl(indent, prop, render_value(Val::Num(n), prop))),
                ExprKind::Template(t) => match kf_tpl_spec(t.quasis@, t.exprs@, theme, kfs) {
                    Err(x) => Err(x),
                    Ok(s) => Ok(decl(indent, prop, s)),
                },
                _ => match eval_spec(v, theme) {
                    Err(x) => Err(x),
                    Ok(val) => Ok(decl(indent, prop, render_value(val, prop))),
                },
            }
        },
        Prop::Spread(st, arg) => if is_container_call(arg) {
            match container_spec(arg.kind->Call_1@, arg.start) {
                Err(x) => Err(x),
                Ok(d) => Ok(pad(indent) + d + ";\n"@),
            }
        } else {
            lfail(ErrorKind::UnsupportedSpread, st)
        },
    }
}

/// The view of a text result.
pub open spec fn text_res(r: Result<Vec<char>, CssError>) -> Result<Seq<char>, CssErr> {
    match r {
        Ok(v) => Ok(v@),
        Err(e) => Err(e@),
    }
}

/// The animation name bound to `name`.
pub fn kf_lookup_exec<'a>(bs: &'a Vec<KfBinding>, name: &String) -> (r: Option<&'a Vec<char>>)
    ensures
        r matches Some(a) ==> kf_lookup(bindings_view(bs@), name@) == Some(a@),
        r is None ==> kf_lookup(bindings_view(bs@), name@) is None,
{
    let mut i: usize = bs.len();
    assert(bs@.subrange(0, i as int) == bs@);
    assert(bindings_view(bs@.subrange(0, 0)).len() == 0);
    while i > 0
        invariant
            i <= bs@.len(),
            kf_lookup(bindings_view(bs@), name@) == kf_lookup(bindings_view(bs@.subrange(0, i as int)), name@),
        decreases i,
    {
        proof {
            let pre = bs@.subrange(0, i as int);
            assert(bindings_view(pre).drop_last() =~= bindings_view(bs@.subrange(0, i - 1)));
            assert(bindings_view(pre).last() == (bs@[i - 1].name@, bs@[i - 1].anim@));
        }
        if bs[i - 1].name == *name {
            return Some(&bs[i - 1].anim);
        }
        i = i - 1;
    }
    None
}

fn push_pad(out: &mut Vec<char>, indent: usize)
    requires
        indent < MAX_DEPTH,
    ensures
        final(out)@ == old(out)@ + pad(indent as nat),
{
    let mut k: usize = 0;
    while k < 2 * indent
        invariant
            k <= 2 * indent,
            indent < MAX_DEPTH,
            out@ == old(out)@ + Seq::new(k as nat, |i: int| ' '),
        decreases 2 * indent - k,
    {
        out.push(' ');
        k = k + 1;
        proof {
            assert(out@ =~= old(out)@ + Seq::new(k as nat, |i: int| ' '));
        }
    }
}

fn decl_exec(indent: usize, prop: &Vec<char>, value: &Vec<char>) -> (r: Vec<char>)
    requires
        indent < MAX_DEPTH,
    ensures
        r@ == decl(indent as nat, prop@, value@),
{
    let mut out: Vec<char> = Vec::new();
    push_pad(&mut out, indent);
    push_all(&mut out, prop);
    push_str(&mut out, ": ");
    push_all(&mut out, value);
    push_str(&mut out, ";\n");
    proof {
        assert(out@ =~= decl(indent as nat, prop@, value@));
    }
    out
}

fn container_arg_exec(e: &Expr, what: &str) -> (r: Result<Vec<char>, CssError>)
    ensures
        text_res(r) == container_arg(*e, what@),
{
    match &e.kind {
        ExprKind::Str(s) => Ok(chars_of(s.as_str())),
        _ => {
            let mut d: Vec<char> = Vec::new();
            push_str(&mut d, what);
            assert(d@ =~= what@);
            Err(CssError { kind: ErrorKind::ContainerArg, start: e.start, detail: d })
        },
    }
}

/// The declarations of `container(type)` or `container(name, type)`.
pub fn expand_container_call(args: &Vec<Expr>, start: u32) -> (r: Result<Vec<char>, CssError>)
    ensures
        text_res(r) == container_spec(args@, start),
{
    if args.len() == 1 {
        let t = match container_arg_exec(&args[0], "container type") {
            Ok(t) => t,
            Err(x) => {
                return Err(x);
            },
        };
        let mut out: Vec<char> = Vec::new();
        push_str(&mut out, "container-type: ");
        push_all(&mut out, &t);
        Ok(out)
    } else if args.len() == 2 {
        let n = match container_arg_exec(&args[0], "container name") {
            Ok(n) => n,
            Err(x) => {
                return Err(x);
            },
        };
        let t = match container_arg_exec(&args[1], "container type") {
            Ok(t) => t,
            Err(x) => {
                return Err(x);
            },
        };
        let mut out: Vec<char> = Vec::new();
        push_str(&mut out, "container-type: ");
        push_all(&mut out, &t);
        push_str(&mut out, ";\n  container-name: ");
        push_all(&mut out, &n);
        proof {
            assert(out@ =~= "container-type: "@ + t@ + ";\n  container-name: "@ + n@);
        }
        Ok(out)
    } else {
        Err(crate::eval::err(ErrorKind::ContainerArity, start))
    }
}

fn kf_piece(e: &Expr, theme: &Option<ThemeNode>, kfs: &Vec<KfBinding>) -> (r: Result<Vec<char>, CssError>)
    ensures
        text_res(r) == (match e.kind {
            ExprKind::Ident(n) => match kf_lookup(bindings_view(kfs@), n@) {
                Some(a) => Ok(a),
                None => match eval_spec(*e, *theme) {
                    Ok(v) => Ok(val_text(v)),
                    Err(x) => Err(x),
                },
            },
            _ => match eval_spec(*e, *theme) {
                Ok(v) => Ok(val_text(v)),
                Err(x) => Err(x),
            },
        }),
{
    if let ExprKind::Ident(n) = &e.kind {
        if let Some(a) = kf_lookup_exec(kfs, n) {
            return Ok(a.clone());
        }
    }
    match eval_value_expr(e, theme) {
        Ok(v) => Ok(val_text_exec(&v)),
        Err(x) => Err(x),
    }
}

/// The text of a template in a declaration value.
pub fn kf_template(
    qs: &Vec<String>,
    es: &Vec<Expr>,
    theme: &Option<ThemeNode>,
    kfs: &Vec<KfBinding>,
) -> (r: Result<Vec<char>, CssError>)
    ensures
        text_res(r) == kf_tpl_spec(qs@, es@, *theme, bindings_view(kfs@)),
{
    let mut out: Vec<char> = Vec::new();
    let mut i: usize = 0;
    let n = qs.len();
    let m = es.len();
    assert(qs@.subrange(0, n as int) == qs@);
    assert(es@.subrange(0, m as int) == es@);
    assert(prepend(out@, kf_tpl_spec(qs@, es@, *theme, bindings_view(kfs@))) == kf_tpl_spec(qs@, es@, *theme, bindings_view(kfs@))) by {
        match kf_tpl_spec(qs@, es@, *theme, bindings_view(kfs@)) {
            Ok(s) => { assert(out@ + s =~= s); },
            Err(_) => {},
        }
    }
    while i < n
        invariant
            n == qs@.len(),
            m == es@.len(),
            i <= n,
            kf_tpl_spec(qs@, es@, *theme, bindings_view(kfs@)) == prepend(
                out@,
                kf_tpl_spec(qs@.subrange(i as int, n as int), crate::eval::tail_exprs(es@, i as int), *theme, bindings_view(kfs@)),
            ),
        decreases n - i,
    {
        let ghost q0 = qs@.subrange(i as int, n as int);
        let ghost e0 = crate::eval::tail_exprs(es@, i as int);
        let ghost before = out@;
        let q = chars_of(qs[i].as_str());
        proof {
            assert(q0[0] == qs@[i as int]);
            assert(q0.drop_first() == qs@.subrange(i as int + 1, n as int));
        }
        if i < m {
            proof {
                assert(e0[0] == es@[i as int]);
                assert(e0.drop_first() == crate::eval::tail_exprs(es@, i as int + 1));
            }
            let p = match kf_piece(&es[i], theme, kfs) {
                Ok(p) => p,
                Err(x) => {
                    proof {
                        assert(q0.len() > 0 && e0.len() > 0);
                        assert(kf_tpl_spec(q0, e0, *theme, bindings_view(kfs@)) == Err::<Seq<char>, CssErr>(x@));
                    }
                    return Err(x);
                },
            };
            push_all(&mut out, &q);
            push_all(&mut out, &p);
            proof {
                match kf_tpl_spec(q0.drop_first(), e0.drop_first(), *theme, bindings_view(kfs@)) {
                    Ok(rest) => {
                        assert(before + (q@ + p@ + rest) =~= out@ + rest);
                    },
                    Err(_) => {},
                }
            }
        } else {
            push_all(&mut out, &q);
            proof {
                assert(e0.len() == 0);
                assert(crate::eval::tail_exprs(es@, i as int + 1).len() == 0);
                let qr = q0.drop_first();
                if qr.len() == 0 {
                    assert(crate::eval::concat_all(qr) == Seq::<char>::empty());
                }
                assert(kf_tpl_spec(qr, crate::eval::tail_exprs(es@, i as int + 1), *theme, bindings_view(kfs@))
                    == Ok::<Seq<char>, CssErr>(crate::eval::concat_all(qr)));
                assert(before + (q@ + crate::eval::concat_all(qr)) =~= out@ + crate::eval::concat_all(qr));
            }
        }
        i = i + 1;
    }
    proof {
        assert(qs@.subrange(n as int, n as int).len() == 0);
        assert(out@ + Seq::<char>::empty() =~= out@);
    }
    Ok(out)
}

/// The raw CSS of the members of an object literal at nesting level `indent`.
pub fn object_to_css(
    ps: &Vec<Prop>,
    indent: usize,
    theme: &Option<ThemeNode>,
    kfs: &Vec<KfBinding>,
) -> (r: Result<Vec<char>, CssError>)
    requires
        indent < MAX_DEPTH,
    ensures
        text_res(r) == obj_spec(ps@, indent as nat, *theme, bindings_view(kfs@)),
    decreases ps,
{
    let mut out: Vec<char> = Vec::new();
    let mut i: usize = 0;
    let n = ps.len();
    assert(ps@.subrange(0, n as int) == ps@);
    assert(prepend(out@, obj_spec(ps@, indent as nat, *theme, bindings_view(kfs@))) == obj_spec(ps@, indent as nat, *theme, bindings_view(kfs@))) by {
        match obj_spec(ps@, indent as nat, *theme, bindings_view(kfs@)) {
            Ok(s) => { assert(out@ + s =~= s); },
            Err(_) => {},
        }
    }
    while i < n
        invariant
            n == ps@.len(),
            i <= n,
            indent < MAX_DEPTH,
            obj_spec(ps@, indent as nat, *theme, bindings_view(kfs@)) == prepend(
                out@,
                obj_spec(ps@.subrange(i as int, n as int), indent as nat, *theme, bindings_view(kfs@)),
            ),
        decreases n - i,
    {
        let ghost rest = ps@.subrange(i as int, n as int);
        let ghost before = out@;
        proof {
            assert(rest[0] == ps@[i as int]);
            assert(rest.drop_first() == ps@.subrange(i as int + 1, n as int));
            vstd::std_specs::vec::axiom_vec_index_decreases(*ps, i as int);
        }
        let a = match prop_to_css(&ps[i], indent, theme, kfs) {
            Ok(a) => a,
            Err(x) => {
                return Err(x);
            },
        };
        push_all(&mut out, &a);
        proof {
            match obj_spec(rest.drop_first(), indent as nat, *theme, bindings_view(kfs@)) {
                Ok(b) => {
                    assert(before + (a@ + b) =~= out@ + b);
                },
                Err(_) => {},
            }
        }
        i = i + 1;
    }
    proof {
        assert(ps@.subrange(n as int, n as int).len() == 0);
        assert(out@ + Seq::<char>::empty() =~= out@);
    }
    Ok(out)
}

/// The raw CSS of one member of an object literal.
pub fn prop_to_css(p: &Prop, indent: usize, theme: &Option<ThemeNode>, kfs: &Vec<KfBinding>) -> (r: Result<
    Vec<char>,
    CssError,
>)
    requires
        indent < MAX_DEPTH,
    ensures
        text_res(r) == prop_spec(*p, indent as nat, *theme, bindings_view(kfs@)),
    decreases p,
{
    match p {
        Prop::KeyValue(PropKey::Unsupported(st), _) => Err(crate::eval::err(ErrorKind::UnsupportedKey, *st)),
        Prop::KeyValue(PropKey::Name(k), v) => {
            let kc = chars_of(k.as_str());
            let prop = kebab_chars(&kc);
            match &v.kind {
                ExprKind::Object(ps) => {
                    if indent + 1 >= MAX_DEPTH {
                        return Err(crate::eval::err(ErrorKind::TooDeep, v.start));
                    }
                    proof {
                        assert(decreases_to!(*p => *v));
                        assert(decreases_to!(*v => v.kind));
                        assert(v.kind == ExprKind::Object(*ps));
                        assert(decreases_to!(v.kind => v.kind->Object_0));
                    }
                    let body = match object_to_css(ps, indent + 1, theme, kfs) {
                        Ok(b) => b,
                        Err(x) => {
                            return Err(x);
                        },
                    };
                    let mut out: Vec<char> = Vec::new();
                    push_pad(&mut out, indent);
                    push_all(&mut out, &kc);
                    push_str(&mut out, " {\n");
                    push_all(&mut out, &body);
                    push_pad(&mut out, indent);
                    push_str(&mut out, "}\n");
                    proof {
                        assert(out@ =~= pad(indent as nat) + k@ + " {\n"@ + body@ + pad(indent as nat) + "}\n"@);
                    }
                    Ok(out)
                },
                ExprKind::Str(s) => Ok(decl_exec(indent, &prop, &chars_of(s.as_str()))),
                ExprKind::Num(n) => {
                    let val = render_value_exec(&StaticValue::Num(*n), &prop);
                    Ok(decl_exec(indent, &prop, &val))
                },
                ExprKind::Template(t) => match kf_template(&t.quasis, &t.exprs, theme, kfs) {
                    Ok(s) => Ok(decl_exec(indent, &prop, &s)),
                    Err(x) => Err(x),
                },
                _ => match eval_value_expr(v, theme) {
                    Ok(val) => {
                        let text = render_value_exec(&val, &prop);
                        Ok(decl_exec(indent, &prop, &text))
                    },
                    Err(x) => Err(x),
                },
            }
        },
        Prop::Spread(st, arg) => {
            if let ExprKind::Call(callee, args) = &arg.kind {
                if let ExprKind::Ident(n) = &callee.kind {
                    let nc = chars_of(n.as_str());
                    if crate::render::chars_eq_str(&nc, "container") {
                        let d = match expand_container_call(args, arg.start) {
                            Ok(d) => d,
                            Err(x) => {
                                return Err(x);
                            },
                        };
                        let mut out: Vec<char> = Vec::new();
                        push_pad(&mut out, indent);
                        push_all(&mut out, &d);
                        push_str(&mut out, ";\n");
                        proof {
                            assert(out@ =~= pad(indent as nat) + d@ + ";\n"@);
                        }
                        return Ok(out);
                    }
                }
            }
            Err(crate::eval::err(ErrorKind::UnsupportedSpread, *st))
        },
    }
}

/// In a declaration template `<q0>${name}<q1>`, an identifier bound to
/// keyframes gives the animation name of its latest binding; an identifier
/// with no such binding, other than `theme`, is a runtime variable.
pub proof fn lemma_keyframe_visibility(
    q0: String,
    q1: String,
    id: Expr,
    theme: Option<ThemeNode>,
    kfs: Bindings,
)
    requires
        id.kind is Ident,
    ensures
        kf_lookup(kfs, id.kind->Ident_0@) matches Some(a) ==> kf_tpl_spec(seq![q0, q1], seq![id], theme, kfs)
            == Ok::<Seq<char>, CssErr>(q0@ + a + q1@),
        kf_lookup(kfs, id.kind->Ident_0@) is None && id.kind->Ident_0@ != "theme"@ ==> kf_tpl_spec(
            seq![q0, q1],
            seq![id],
            theme,
            kfs,
        ) == Err::<Seq<char>, CssErr>(
            CssErr { kind: ErrorKind::RuntimeIdent, start: id.start, detail: id.kind->Ident_0@ },
        ),
{
    let qs = seq![q0, q1];
    let es = seq![id];
    assert(qs.drop_first() == seq![q1]);
    assert(es.drop_first() =~= Seq::<Expr>::empty());
    assert(seq![q1].drop_first() =~= Seq::<String>::empty());
    assert(crate::eval::concat_all(Seq::<String>::empty()) == Seq::<char>::empty());
    assert(seq![q1][0] == q1);
    assert(crate::eval::concat_all(seq![q1]) == q1@ + crate::eval::concat_all(seq![q1].drop_first()));
    assert(crate::eval::concat_all(seq![q1]) =~= q1@);
    assert(kf_tpl_spec(seq![q1], Seq::empty(), theme, kfs) == Ok::<Seq<char>, CssErr>(q1@));
    assert(crate::eval::chain(id) == Some(seq![id.kind->Ident_0]));
}

} // verus!
