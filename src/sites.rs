//! Extraction of single sites: object styles, global templates and keyframes
//! templates, each lowered to raw CSS and run through the engine.
use vstd::prelude::*;
use crate::ast::{Expr, ExprKind, Prop, Template};
use crate::engine::{
    CHROME_TARGET, FIREFOX_TARGET, SAFARI_TARGET, engine_accepts, engine_css, engine_error, engine_map,
    opt_view, replace_first,
    replace_first_exec, run_css, trim_chars, trim_of,
};
use crate::eval::{
    CssErr, CssError, ErrorKind, concat_all, eval_spec, eval_value_expr, prepend, push_str, tail_exprs,
    val_text, val_text_exec,
};
use crate::hash::{hash8, hash8_of};
use crate::lower::{KfBinding, obj_spec, object_to_css, text_res};
use crate::render::{digits, digits_exec, render_num, render_num_exec};
use crate::text::{chars_of, push_all, string_of};
use crate::theme::ThemeNode;

verus! {

/// The hash of the site of `filename` that starts at byte `start`.
pub open spec fn site_hash(filename: Seq<char>, start: u32) -> Seq<char> {
    hash8_of(filename + ":"@ + digits(start as nat))
}

/// The raw CSS of an object site, under the placeholder class.
pub open spec fn class_raw(body: Seq<char>) -> Seq<char> {
    ".css_obj {\n"@ + body + "}\n"@
}

/// The raw CSS of a keyframes site, under the placeholder name.
pub open spec fn keyframes_raw(inner: Seq<char>) -> Seq<char> {
    "@keyframes __kf_placeholder__ { "@ + trim_of(inner) + " }"@
}

/// What the engine accepts, for the container-query targets.
pub open spec fn accepts(raw: Seq<char>) -> bool {
    engine_accepts(raw, CHROME_TARGET, SAFARI_TARGET, FIREFOX_TARGET)
}

/// The source map the engine writes, for the container-query targets.
pub open spec fn mapped(raw: Seq<char>) -> Option<Seq<char>> {
    engine_map(raw, CHROME_TARGET, SAFARI_TARGET, FIREFOX_TARGET)
}

/// The failure of the engine on `raw`, for the container-query targets.
pub open spec fn engine_fail(raw: Seq<char>) -> CssErr {
    CssErr { kind: ErrorKind::Engine, start: 0, detail: engine_error(raw, CHROME_TARGET, SAFARI_TARGET, FIREFOX_TARGET) }
}

/// What the engine prints, for the container-query targets.
pub open spec fn printed(raw: Seq<char>) -> Seq<char> {
    engine_css(raw, CHROME_TARGET, SAFARI_TARGET, FIREFOX_TARGET)
}

/// The text of one interpolation of a literal-only template: a string or
/// numeric literal as written, anything else statically evaluated when a
/// theme is given, else a failure of `kind`.
#[verifier::opaque]
pub open spec fn lit_piece(e: Expr, theme: Option<ThemeNode>, kind: ErrorKind) -> Result<Seq<char>, CssErr> {
    match e.kind {
        ExprKind::Str(s) => Ok(s@),
        ExprKind::Num(n) => Ok(render_num(n)),
        ExprKind::NumOutOfRange => Err(CssErr { kind: ErrorKind::NumberRange, start: e.start, detail: Seq::empty() }),
        _ => match theme {
            Some(_) => match eval_spec(e, theme) {
                Ok(v) => Ok(val_text(v)),
                Err(x) => Err(x),
            },
            None => Err(CssErr { kind, start: e.start, detail: Seq::empty() }),
        },
    }
}

/// The text of a global or keyframes template.
pub open spec fn lit_tpl_spec(qs: Seq<String>, es: Seq<Expr>, theme: Option<ThemeNode>, kind: ErrorKind) -> Result<Seq<char>, CssErr>
    decreases es.len(),
{
    if qs.len() == 0 {
        Ok(Seq::empty())
    } else if es.len() == 0 {
        Ok(concat_all(qs))
    } else {
        match lit_piece(es[0], theme, kind) {
            Err(x) => Err(x),
            Ok(p) => match lit_tpl_spec(qs.drop_first(), es.drop_first(), theme, kind) {
                Err(x) => Err(x),
                Ok(rest) => Ok(qs[0]@ + p + rest),
            },
        }
    }
}

/// A site lowered and printed: its hash, its final CSS and the source map of the CSS.
pub struct SiteCss {
    pub hash: String,
    pub css: Vec<char>,
    pub map: Option<String>,
}

fn lit_piece_exec(e: &Expr, theme: &Option<ThemeNode>, kind: ErrorKind) -> (r: Result<Vec<char>, CssError>)
    ensures
        text_res(r) == lit_piece(*e, *theme, kind),
{
    reveal(lit_piece);
    match &e.kind {
        ExprKind::Str(s) => Ok(chars_of(s.as_str())),
        ExprKind::Num(n) => Ok(render_num_exec(*n)),
        ExprKind::NumOutOfRange => Err(crate::eval::err(ErrorKind::NumberRange, e.start)),
        _ => match theme {
            Some(_) => match eval_value_expr(e, theme) {
                Ok(v) => Ok(val_text_exec(&v)),
                Err(x) => Err(x),
            },
            None => Err(crate::eval::err(kind, e.start)),
        },
    }
}

/// The text of a template whose interpolations are literals, or statically
/// evaluated when a theme is given.
pub fn literal_template(t: &Template, theme: &Option<ThemeNode>, kind: ErrorKind) -> (r: Result<Vec<char>, CssError>)
    ensures
        text_res(r) == lit_tpl_spec(t.quasis@, t.exprs@, *theme, kind),
{
    let qs = &t.quasis;
    let es = &t.exprs;
    let mut out: Vec<char> = Vec::new();
    let mut i: usize = 0;
    let n = qs.len();
    let m = es.len();
    assert(qs@.subrange(0, n as int) == qs@);
    assert(es@.subrange(0, m as int) == es@);
    assert(prepend(out@, lit_tpl_spec(qs@, es@, *theme, kind)) == lit_tpl_spec(qs@, es@, *theme, kind)) by {
        match lit_tpl_spec(qs@, es@, *theme, kind) {
            Ok(s) => { assert(out@ + s =~= s); },
            Err(_) => {},
        }
    }
    while i < n
        invariant
            qs@ == t.quasis@,
            es@ == t.exprs@,
            n == qs@.len(),
            m == es@.len(),
            i <= n,
            lit_tpl_spec(qs@, es@, *theme, kind) == prepend(
                out@,
                lit_tpl_spec(qs@.subrange(i as int, n as int), tail_exprs(es@, i as int), *theme, kind),
            ),
        decreases n - i,
    {
        let ghost q0 = qs@.subrange(i as int, n as int);
        let ghost e0 = tail_exprs(es@, i as int);
        let ghost before = out@;
        let q = chars_of(qs[i].as_str());
        proof {
            assert(q0[0] == qs@[i as int]);
            assert(q0.drop_first() == qs@.subrange(i as int + 1, n as int));
        }
        if i < m {
            proof {
                assert(e0[0] == es@[i as int]);
                assert(e0.drop_first() == tail_exprs(es@, i as int + 1));
            }
            let p = match lit_piece_exec(&es[i], theme, kind) {
                Ok(p) => p,
                Err(x) => {
                    proof {
                        assert(q0.len() > 0 && e0.len() > 0);
                        assert(lit_tpl_spec(q0, e0, *theme, kind) == Err::<Seq<char>, CssErr>(x@));
                        assert(lit_tpl_spec(qs@, es@, *theme, kind) == Err::<Seq<char>, CssErr>(x@));
                    }
                    return Err(x);
                },
            };
            push_all(&mut out, &q);
            push_all(&mut out, &p);
            proof {
                match lit_tpl_spec(q0.drop_first(), e0.drop_first(), *theme, kind) {
                    Ok(rest) => {
                        assert(before + (q@ + p@ + rest) =~= out@ + rest);
                    },
                    Err(_) => {},
                }
            }
        } else {
            push_all(&mut out, &q);
            proof {
                assert(e0.len() == 0);
                assert(tail_exprs(es@, i as int + 1).len() == 0);
                let qr = q0.drop_first();
                if qr.len() == 0 {
                    assert(concat_all(qr) == Seq::<char>::empty());
                }
                assert(lit_tpl_spec(qr, tail_exprs(es@, i as int + 1), *theme, kind)
                    == Ok::<Seq<char>, CssErr>(concat_all(qr)));
                assert(before + (q@ + concat_all(qr)) =~= out@ + concat_all(qr));
            }
        }
        i = i + 1;
    }
    proof {
        assert(qs@.subrange(n as int, n as int).len() == 0);
        assert(out@ + Seq::<char>::empty() =~= out@);
    }
    Ok(out)
}

/// The hash of the site of `filename` that starts at `start`.
pub fn site_hash_exec(filename: &str, start: u32) -> (r: String)
    ensures
        r@ == site_hash(filename@, start),
{
    let mut input = chars_of(filename);
    push_str(&mut input, ":");
    let d = digits_exec(start as u64);
    push_all(&mut input, &d);
    let s = string_of(&input);
    hash8(s.as_str())
}

fn engine_failure(message: String) -> (r: CssError)
    ensures
        r@ == (CssErr { kind: ErrorKind::Engine, start: 0, detail: message@ }),
{
    CssError { kind: ErrorKind::Engine, start: 0, detail: chars_of(message.as_str()) }
}

/// Lowers the object of a `css(...)` site that starts at `start`, runs it
/// through the engine and stamps the class name `cls_<hash>` in.
pub fn process_css_object(
    props: &Vec<Prop>,
    start: u32,
    filename: &str,
    theme: &Option<ThemeNode>,
    kfs: &Vec<KfBinding>,
) -> (r: Result<SiteCss, CssError>)
    ensures
        match obj_spec(props@, 1, *theme, crate::lower::bindings_view(kfs@)) {
            Err(x) => r matches Err(y) && y@ == x,
            Ok(body) => {
                &&& (r is Ok <==> accepts(class_raw(body)))
                &&& r matches Ok(o) ==> o.hash@ == site_hash(filename@, start) && o.css@
                    == replace_first(printed(class_raw(body)), ".css_obj"@, "."@ + "cls_"@ + o.hash@)
                    && opt_view(o.map) == mapped(class_raw(body))
                &&& r matches Err(y) ==> y@ == engine_fail(class_raw(body))
            },
        },
{
    let body = match object_to_css(props, 1, theme, kfs) {
        Ok(b) => b,
        Err(x) => {
            return Err(x);
        },
    };
    let mut raw: Vec<char> = Vec::new();
    push_str(&mut raw, ".css_obj {\n");
    push_all(&mut raw, &body);
    push_str(&mut raw, "}\n");
    assert(raw@ =~= class_raw(body@));
    let hash = site_hash_exec(filename, start);
    let out = match run_css(&raw) {
        Ok(o) => o,
        Err(m) => {
            return Err(engine_failure(m));
        },
    };
    let mut placeholder: Vec<char> = Vec::new();
    push_str(&mut placeholder, ".css_obj");
    assert(placeholder@.len() > 0) by {
        reveal_strlit(".css_obj");
    }
    let mut name: Vec<char> = Vec::new();
    push_str(&mut name, ".cls_");
    let hc = chars_of(hash.as_str());
    push_all(&mut name, &hc);
    assert(name@ =~= "."@ + "cls_"@ + hash@) by {
        assert(".cls_"@ =~= "."@ + "cls_"@) by {
            reveal_strlit(".cls_");
            reveal_strlit(".");
            reveal_strlit("cls_");
        }
    }
    let css = replace_first_exec(&out.css, &placeholder, &name);
    Ok(SiteCss { hash, css, map: out.map })
}

/// Concatenates a `globalCss` template that starts at `t.start` and runs it
/// through the engine.
pub fn process_global_css_template(t: &Template, filename: &str, theme: &Option<ThemeNode>) -> (r: Result<SiteCss, CssError>)
    ensures
        match lit_tpl_spec(t.quasis@, t.exprs@, *theme, ErrorKind::GlobalInterpolation) {
            Err(x) => r matches Err(y) && y@ == x,
            Ok(raw) => {
                &&& (r is Ok <==> accepts(raw))
                &&& r matches Ok(o) ==> o.hash@ == site_hash(filename@, t.start) && o.css@ == printed(raw)
                    && opt_view(o.map) == mapped(raw)
                &&& r matches Err(y) ==> y@ == engine_fail(raw)
            },
        },
{
    let raw = match literal_template(t, theme, ErrorKind::GlobalInterpolation) {
        Ok(raw) => raw,
        Err(x) => {
            return Err(x);
        },
    };
    let hash = site_hash_exec(filename, t.start);
    match run_css(&raw) {
        Ok(o) => Ok(SiteCss { hash, css: o.css, map: o.map }),
        Err(m) => Err(engine_failure(m)),
    }
}

/// Concatenates a `keyframes` template that starts at `t.start`, wraps it in
/// an `@keyframes` rule, runs it through the engine and stamps the animation
/// name `kf_<hash>` in.
pub fn process_keyframes_template(t: &Template, filename: &str) -> (r: Result<SiteCss, CssError>)
    ensures
        match lit_tpl_spec(t.quasis@, t.exprs@, None, ErrorKind::KeyframesInterpolation) {
            Err(x) => r matches Err(y) && y@ == x,
            Ok(inner) => {
                &&& (r is Ok <==> accepts(keyframes_raw(inner)))
                &&& r matches Ok(o) ==> o.hash@ == site_hash(filename@, t.start) && o.css@
                    == replace_first(printed(keyframes_raw(inner)), "__kf_placeholder__"@, "kf_"@ + o.hash@)
                    && opt_view(o.map) == mapped(keyframes_raw(inner))
                &&& r matches Err(y) ==> y@ == engine_fail(keyframes_raw(inner))
            },
        },
{
    let no_theme: Option<ThemeNode> = None;
    let inner = match literal_template(t, &no_theme, ErrorKind::KeyframesInterpolation) {
        Ok(i) => i,
        Err(x) => {
            return Err(x);
        },
    };
    let trimmed = trim_chars(&inner);
    let mut raw: Vec<char> = Vec::new();
    push_str(&mut raw, "@keyframes __kf_placeholder__ { ");
    push_all(&mut raw, &trimmed);
    push_str(&mut raw, " }");
    assert(raw@ =~= keyframes_raw(inner@));
    let hash = site_hash_exec(filename, t.start);
    let out = match run_css(&raw) {
        Ok(o) => o,
        Err(m) => {
            return Err(engine_failure(m));
        },
    };
    let mut placeholder: Vec<char> = Vec::new();
    push_str(&mut placeholder, "__kf_placeholder__");
    assert(placeholder@.len() > 0) by {
        reveal_strlit("__kf_placeholder__");
    }
    let mut name: Vec<char> = Vec::new();
    push_str(&mut name, "kf_");
    let hc = chars_of(hash.as_str());
    push_all(&mut name, &hc);
    let css = replace_first_exec(&out.css, &placeholder, &name);
    Ok(SiteCss { hash, css, map: out.map })
}

} // verus!
