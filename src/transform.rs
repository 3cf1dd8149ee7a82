//! The extraction driver: walks a program, extracts every site, and rewrites
//! each site in the source to its generated identifier.
use vstd::prelude::*;
use vstd::string::StringSliceAdditionalSpecFns;
use crate::ast::{Declarator, Expr, ExprKind, Prop, Stmt};
use crate::edits::{Edit, apply_edits, check_edits, edits_in_order, splice};
use crate::eval::{CssErr, CssError, ErrorKind, push_str};
use crate::ast::Template;
use crate::engine::{opt_view, replace_first};
use crate::lower::{Bindings, KfBinding, bindings_view};
use crate::position::{byte_offset_to_line_col, col_of, line_of};
use crate::render::{chars_eq_str, digits, digits_exec};
use crate::lower::obj_spec;
use crate::sites::{
    accepts, class_raw, engine_fail, keyframes_raw, lit_tpl_spec, mapped, printed, process_css_object,
    process_global_css_template, process_keyframes_template, site_hash,
};
use crate::text::{chars_of, push_all, string_of};
use crate::theme::ThemeNode;

verus! {

/// The CSS extracted from one `css(...)` site.
pub struct ExtractedCssRule {
    pub hash: String,
    pub css: String,
    /// Source map JSON of the CSS.
    pub map: Option<String>,
}

/// The CSS extracted from one `globalCss` site.
pub struct GlobalCssRule {
    pub hash: String,
    pub css: String,
    pub map: Option<String>,
}

/// The `@keyframes` rule extracted from one `keyframes` site.
pub struct KeyframeRule {
    /// The hash, without the `kf_` prefix.
    pub hash: String,
    /// The animation name `kf_<hash>`.
    pub name: String,
    /// The minified `@keyframes` rule.
    pub css: String,
    pub map: Option<String>,
}

/// What a transform of one file gives.
pub struct TransformResult {
    /// The rewritten source.
    pub code: String,
    pub css_rules: Vec<ExtractedCssRule>,
    pub global_css: Vec<GlobalCssRule>,
    pub keyframes: Vec<KeyframeRule>,
    /// Source map JSON of the rewritten source.
    pub map: Option<String>,
    /// The edits that turned the source into `code`, one per site, in source order.
    pub edits: Vec<Edit>,
}

/// The class of a transform failure.
#[derive(Clone, Copy, PartialEq, Eq, Structural, Debug)]
pub enum Status {
    /// The source uses a form that cannot be extracted statically.
    InvalidArg,
    /// The CSS engine failed, or the sites could not be spliced into the source.
    GenericFailure,
}

/// A transform failure with its diagnostic.
pub struct TransformError {
    pub status: Status,
    pub message: String,
}

/// What the walk has gathered so far.
pub struct WalkCtx {
    pub edits: Vec<Edit>,
    pub css_rules: Vec<ExtractedCssRule>,
    pub global_css: Vec<GlobalCssRule>,
    pub keyframes: Vec<KeyframeRule>,
    /// Variables bound to keyframes, in the order of their declarations.
    pub bindings: Vec<KfBinding>,
}

/// What an edit is.
pub struct EditV {
    pub start: u32,
    pub end: u32,
    pub rep: Seq<char>,
}

/// What an extracted rule is: its hash, its CSS and its source map.
pub struct RuleV {
    pub hash: Seq<char>,
    pub css: Seq<char>,
    pub map: Option<Seq<char>>,
}

/// What an extracted `@keyframes` rule is.
pub struct KfRuleV {
    pub hash: Seq<char>,
    pub name: Seq<char>,
    pub css: Seq<char>,
    pub map: Option<Seq<char>>,
}

/// What a walk has gathered: edits and artifacts in source order, and the
/// keyframe bindings seen so far.
pub struct WalkState {
    pub edits: Seq<EditV>,
    pub css_rules: Seq<RuleV>,
    pub global_css: Seq<RuleV>,
    pub keyframes: Seq<KfRuleV>,
    pub bindings: Bindings,
}

/// The view of an edit.
pub open spec fn edit_view(e: Edit) -> EditV {
    EditV { start: e.start, end: e.end, rep: e.replacement@ }
}

/// The views of edits.
pub open spec fn edits_view(es: Seq<Edit>) -> Seq<EditV> {
    es.map_values(|e: Edit| edit_view(e))
}

/// The views of `css(...)` rules.
pub open spec fn rules_view(rs: Seq<ExtractedCssRule>) -> Seq<RuleV> {
    rs.map_values(|r: ExtractedCssRule| RuleV { hash: r.hash@, css: r.css@, map: opt_view(r.map) })
}

/// The views of global rules.
pub open spec fn globals_view(rs: Seq<GlobalCssRule>) -> Seq<RuleV> {
    rs.map_values(|r: GlobalCssRule| RuleV { hash: r.hash@, css: r.css@, map: opt_view(r.map) })
}

/// The views of keyframes rules.
pub open spec fn keyframes_view(rs: Seq<KeyframeRule>) -> Seq<KfRuleV> {
    rs.map_values(|r: KeyframeRule| KfRuleV { hash: r.hash@, name: r.name@, css: r.css@, map: opt_view(r.map) })
}

/// What a walk context holds.
pub open spec fn ctx_view(c: WalkCtx) -> WalkState {
    WalkState {
        edits: edits_view(c.edits@),
        css_rules: rules_view(c.css_rules@),
        global_css: globals_view(c.global_css@),
        keyframes: keyframes_view(c.keyframes@),
        bindings: bindings_view(c.bindings@),
    }
}

/// The state before any site.
pub open spec fn empty_state() -> WalkState {
    WalkState {
        edits: Seq::empty(),
        css_rules: Seq::empty(),
        global_css: Seq::empty(),
        keyframes: Seq::empty(),
        bindings: Seq::empty(),
    }
}

/// The result of a walk step as a state or a failure.
pub open spec fn walk_res(r: Result<(), CssError>, c: WalkCtx) -> Result<WalkState, CssErr> {
    match r {
        Ok(_) => Ok(ctx_view(c)),
        Err(x) => Err(x@),
    }
}

/// The view of an optional borrowed string.
pub open spec fn opt_ref_view(o: Option<&String>) -> Option<Seq<char>> {
    match o {
        Some(s) => Some(s@),
        None => None,
    }
}

/// Whether an expression is the identifier `name`.
pub open spec fn is_ident(e: Expr, name: Seq<char>) -> bool {
    match e.kind {
        ExprKind::Ident(n) => n@ == name,
        _ => false,
    }
}

fn is_ident_exec(e: &Expr, name: &str) -> (r: bool)
    ensures
        r == is_ident(*e, name@),
{
    match &e.kind {
        ExprKind::Ident(n) => {
            let c = chars_of(n.as_str());
            chars_eq_str(&c, name)
        },
        _ => false,
    }
}

/// The object that an arrow function of one parameter returns: the first
/// statement of its body that is an object (or a parenthesised object), as an
/// expression or as the argument of `return`.
pub open spec fn stmt_object(s: Stmt) -> Option<Seq<Prop>> {
    match s {
        Stmt::Expr(e) => object_of(e),
        Stmt::Return(Some(e)) => object_of(e),
        _ => None,
    }
}

/// The members of an object literal, possibly parenthesised.
pub open spec fn object_of(e: Expr) -> Option<Seq<Prop>> {
    match e.kind {
        ExprKind::Object(ps) => Some(ps@),
        ExprKind::Paren(inner) => match inner.kind {
            ExprKind::Object(ps) => Some(ps@),
            _ => None,
        },
        _ => None,
    }
}

/// The first statement object of `ss`.
pub open spec fn first_object(ss: Seq<Stmt>) -> Option<Seq<Prop>>
    decreases ss.len(),
{
    if ss.len() == 0 {
        None
    } else {
        match stmt_object(ss[0]) {
            Some(ps) => Some(ps),
            None => first_object(ss.drop_first()),
        }
    }
}

/// The object returned by an arrow function of exactly one parameter.
pub open spec fn arrow_object(e: Expr) -> Option<Seq<Prop>> {
    match e.kind {
        ExprKind::Arrow(n, body) => if n == 1 { first_object(body@) } else { None },
        _ => None,
    }
}

fn expr_object(e: &Expr) -> (r: Option<&Vec<Prop>>)
    ensures
        r matches Some(ps) ==> object_of(*e) == Some(ps@),
        r is None ==> object_of(*e) is None,
{
    match &e.kind {
        ExprKind::Object(ps) => Some(ps),
        ExprKind::Paren(inner) => match &inner.kind {
            ExprKind::Object(ps) => Some(ps),
            _ => None,
        },
        _ => None,
    }
}

/// The object returned by an arrow function of exactly one parameter, when
/// its body holds one.
pub fn extract_theme_arrow_body(e: &Expr) -> (r: Option<&Vec<Prop>>)
    ensures
        r matches Some(ps) ==> arrow_object(*e) == Some(ps@),
        r is None ==> arrow_object(*e) is None,
{
    match &e.kind {
        ExprKind::Arrow(n, body) => {
            if *n != 1 {
                return None;
            }
            let mut i: usize = 0;
            assert(body@.subrange(0, body@.len() as int) == body@);
            while i < body.len()
                invariant
                    e.kind == ExprKind::Arrow(*n, *body),
                    *n == 1,
                    i <= body@.len(),
                    first_object(body@) == first_object(body@.subrange(i as int, body@.len() as int)),
                decreases body@.len() - i,
            {
                proof {
                    let rest = body@.subrange(i as int, body@.len() as int);
                    assert(rest[0] == body@[i as int]);
                    assert(rest.drop_first() == body@.subrange(i as int + 1, body@.len() as int));
                }
                let found = match &body[i] {
                    Stmt::Expr(x) => expr_object(x),
                    Stmt::Return(Some(x)) => expr_object(x),
                    _ => None,
                };
                if let Some(ps) = found {
                    return Some(ps);
                }
                i = i + 1;
            }
            None
        },
        _ => None,
    }
}

/// The text `"<prefix><hash>"`, quoted.
fn quoted(prefix: &str, hash: &String) -> (r: String)
    ensures
        r@ == "\""@ + prefix@ + hash@ + "\""@,
{
    let mut v: Vec<char> = Vec::new();
    push_str(&mut v, "\"");
    push_str(&mut v, prefix);
    let h = chars_of(hash.as_str());
    push_all(&mut v, &h);
    push_str(&mut v, "\"");
    assert(v@ =~= "\""@ + prefix@ + h@ + "\""@);
    string_of(&v)
}

fn prefixed(prefix: &str, hash: &String) -> (r: Vec<char>)
    ensures
        r@ == prefix@ + hash@,
{
    let mut v: Vec<char> = Vec::new();
    push_str(&mut v, prefix);
    let h = chars_of(hash.as_str());
    push_all(&mut v, &h);
    assert(v@ =~= prefix@ + h@);
    v
}

/// Whether `e` is a `css(...)` site: a call of `css` whose first argument is
/// an object, or an arrow function of one parameter returning one.
pub open spec fn is_css_site(e: Expr) -> bool {
    match e.kind {
        ExprKind::Call(callee, args) => is_ident(*callee, "css"@) && args@.len() > 0 && (
        args@[0].kind is Object || arrow_object(args@[0]) is Some),
        _ => false,
    }
}

/// The members of the object of a `css(...)` site.
pub open spec fn css_site_props(e: Expr) -> Seq<Prop> {
    match e.kind {
        ExprKind::Call(_, args) => match args@[0].kind {
            ExprKind::Object(ps) => ps@,
            _ => arrow_object(args@[0])->Some_0,
        },
        _ => Seq::empty(),
    }
}

/// A `css(...)` site spanning `e` with the object members `ps`: one edit to
/// the quoted class name and one rule, or the first failure.
#[verifier::opaque]
pub open spec fn css_step(ps: Seq<Prop>, e: Expr, st: WalkState, filename: Seq<char>, theme: Option<ThemeNode>) -> Result<WalkState, CssErr> {
    match obj_spec(ps, 1, theme, st.bindings) {
        Err(x) => Err(x),
        Ok(body) => if accepts(class_raw(body)) {
            let h = site_hash(filename, e.start);
            Ok(WalkState {
                edits: st.edits.push(EditV { start: e.start, end: e.end, rep: "\""@ + "cls_"@ + h + "\""@ }),
                css_rules: st.css_rules.push(RuleV {
                    hash: h,
                    css: replace_first(printed(class_raw(body)), ".css_obj"@, "."@ + "cls_"@ + h),
                    map: mapped(class_raw(body)),
                }),
                global_css: st.global_css,
                keyframes: st.keyframes,
                bindings: st.bindings,
            })
        } else {
            Err(engine_fail(class_raw(body)))
        },
    }
}

/// A `globalCss` site spanning `e` with template `t`: one edit to `undefined`
/// and one global rule, or the first failure.
#[verifier::opaque]
pub open spec fn global_step(t: Template, e: Expr, st: WalkState, filename: Seq<char>, theme: Option<ThemeNode>) -> Result<WalkState, CssErr> {
    match lit_tpl_spec(t.quasis@, t.exprs@, theme, ErrorKind::GlobalInterpolation) {
        Err(x) => Err(x),
        Ok(raw) => if accepts(raw) {
            Ok(WalkState {
                edits: st.edits.push(EditV { start: e.start, end: e.end, rep: "undefined"@ }),
                css_rules: st.css_rules,
                global_css: st.global_css.push(RuleV { hash: site_hash(filename, t.start), css: printed(raw), map: mapped(raw) }),
                keyframes: st.keyframes,
                bindings: st.bindings,
            })
        } else {
            Err(engine_fail(raw))
        },
    }
}

/// A `keyframes` site spanning `e` with template `t`: one edit to the quoted
/// animation name, one keyframes rule, and a binding of `binding` to the name
/// when the site initialises a variable; or the first failure.
#[verifier::opaque]
pub open spec fn keyframes_step(t: Template, e: Expr, st: WalkState, filename: Seq<char>, binding: Option<Seq<char>>) -> Result<WalkState, CssErr> {
    match lit_tpl_spec(t.quasis@, t.exprs@, None, ErrorKind::KeyframesInterpolation) {
        Err(x) => Err(x),
        Ok(inner) => if accepts(keyframes_raw(inner)) {
            let h = site_hash(filename, t.start);
            let name = "kf_"@ + h;
            Ok(WalkState {
                edits: st.edits.push(EditV { start: e.start, end: e.end, rep: "\""@ + name + "\""@ }),
                css_rules: st.css_rules,
                global_css: st.global_css,
                keyframes: st.keyframes.push(KfRuleV {
                    hash: h,
                    name: name,
                    css: replace_first(printed(keyframes_raw(inner)), "__kf_placeholder__"@, name),
                    map: mapped(keyframes_raw(inner)),
                }),
                bindings: match binding {
                    Some(n) => st.bindings.push((n, name)),
                    None => st.bindings,
                },
            })
        } else {
            Err(engine_fail(keyframes_raw(inner)))
        },
    }
}

/// The walk of an expression: its sites, in source order, or the first failure.
pub open spec fn walk_expr_spec(e: Expr, st: WalkState, filename: Seq<char>, theme: Option<ThemeNode>, binding: Option<Seq<char>>) -> Result<WalkState, CssErr>
    decreases e,
{
    match e.kind {
        ExprKind::Call(callee, args) => if is_css_site(e) {
            css_step(css_site_props(e), e, st, filename, theme)
        } else {
            match walk_expr_spec(*callee, st, filename, theme, None) {
                Err(x) => Err(x),
                Ok(s1) => walk_exprs_spec(args@, s1, filename, theme),
            }
        },
        ExprKind::TaggedTemplate(tag, q) => if is_ident(*tag, "globalCss"@) {
            global_step(q, e, st, filename, theme)
        } else if is_ident(*tag, "keyframes"@) {
            keyframes_step(q, e, st, filename, binding)
        } else {
            Ok(st)
        },
        ExprKind::Arrow(_, body) => walk_stmts_spec(body@, st, filename, theme),
        ExprKind::Jsx(items) => walk_exprs_spec(items@, st, filename, theme),
        ExprKind::Paren(inner) => walk_expr_spec(*inner, st, filename, theme, None),
        _ => Ok(st),
    }
}

/// The walk of expressions in order.
pub open spec fn walk_exprs_spec(es: Seq<Expr>, st: WalkState, filename: Seq<char>, theme: Option<ThemeNode>) -> Result<WalkState, CssErr>
    decreases es,
{
    if es.len() == 0 {
        Ok(st)
    } else {
        match walk_expr_spec(es[0], st, filename, theme, None) {
            Err(x) => Err(x),
            Ok(s1) => walk_exprs_spec(es.drop_first(), s1, filename, theme),
        }
    }
}

/// The walk of a statement.
pub open spec fn walk_stmt_spec(s: Stmt, st: WalkState, filename: Seq<char>, theme: Option<ThemeNode>) -> Result<WalkState, CssErr>
    decreases s,
{
    match s {
        Stmt::Expr(e) => walk_expr_spec(e, st, filename, theme, None),
        Stmt::Var(ds) => walk_decls_spec(ds@, st, filename, theme),
        Stmt::Return(Some(e)) => walk_expr_spec(e, st, filename, theme, None),
        Stmt::Return(None) => Ok(st),
        Stmt::Block(ss) => walk_stmts_spec(ss@, st, filename, theme),
        Stmt::If(c, alt) => match walk_stmt_spec(*c, st, filename, theme) {
            Err(x) => Err(x),
            Ok(s1) => match alt {
                Some(a) => walk_stmt_spec(*a, s1, filename, theme),
                None => Ok(s1),
            },
        },
        Stmt::Other => Ok(st),
    }
}

/// The walk of statements in order.
pub open spec fn walk_stmts_spec(ss: Seq<Stmt>, st: WalkState, filename: Seq<char>, theme: Option<ThemeNode>) -> Result<WalkState, CssErr>
    decreases ss,
{
    if ss.len() == 0 {
        Ok(st)
    } else {
        match walk_stmt_spec(ss[0], st, filename, theme) {
            Err(x) => Err(x),
            Ok(s1) => walk_stmts_spec(ss.drop_first(), s1, filename, theme),
        }
    }
}

/// The walk of declarators in order; each initialiser is walked with its
/// bound name.
pub open spec fn walk_decls_spec(ds: Seq<Declarator>, st: WalkState, filename: Seq<char>, theme: Option<ThemeNode>) -> Result<WalkState, CssErr>
    decreases ds,
{
    if ds.len() == 0 {
        Ok(st)
    } else {
        let step = match ds[0].init {
            Some(init) => walk_expr_spec(init, st, filename, theme, opt_view(ds[0].name)),
            None => Ok(st),
        };
        match step {
            Err(x) => Err(x),
            Ok(s1) => walk_decls_spec(ds.drop_first(), s1, filename, theme),
        }
    }
}

fn record_css(ctx: &mut WalkCtx, e: &Expr, ps: &Vec<Prop>, filename: &str, theme: &Option<ThemeNode>) -> (r: Result<(), CssError>)
    ensures
        walk_res(r, *final(ctx)) == css_step(ps@, *e, ctx_view(*old(ctx)), filename@, *theme),
{
    reveal(css_step);
    let site = match process_css_object(ps, e.start, filename, theme, &ctx.bindings) {
        Ok(s) => s,
        Err(x) => {
            return Err(x);
        },
    };
    let rep = quoted("cls_", &site.hash);
    let css = string_of(&site.css);
    let ghost before = ctx_view(*ctx);
    ctx.edits.push(Edit { start: e.start, end: e.end, replacement: rep });
    ctx.css_rules.push(ExtractedCssRule { hash: site.hash, css, map: site.map });
    proof {
        assert(ctx_view(*ctx).edits =~= before.edits.push(edit_view(ctx.edits@.last())));
        assert(ctx_view(*ctx).css_rules =~= before.css_rules.push(
            RuleV { hash: ctx.css_rules@.last().hash@, css: ctx.css_rules@.last().css@, map: opt_view(ctx.css_rules@.last().map) },
        ));
    }
    Ok(())
}

fn record_global(ctx: &mut WalkCtx, e: &Expr, quasi: &Template, filename: &str, theme: &Option<ThemeNode>) -> (r: Result<(), CssError>)
    ensures
        walk_res(r, *final(ctx)) == global_step(*quasi, *e, ctx_view(*old(ctx)), filename@, *theme),
{
    reveal(global_step);
    let site = match process_global_css_template(quasi, filename, theme) {
        Ok(s) => s,
        Err(x) => {
            return Err(x);
        },
    };
    let css = string_of(&site.css);
    let ghost before = ctx_view(*ctx);
    ctx.edits.push(Edit { start: e.start, end: e.end, replacement: "undefined".to_string() });
    ctx.global_css.push(GlobalCssRule { hash: site.hash, css, map: site.map });
    proof {
        assert(ctx_view(*ctx).edits =~= before.edits.push(edit_view(ctx.edits@.last())));
        assert(ctx_view(*ctx).global_css =~= before.global_css.push(
            RuleV { hash: ctx.global_css@.last().hash@, css: ctx.global_css@.last().css@, map: opt_view(ctx.global_css@.last().map) },
        ));
    }
    Ok(())
}

fn record_keyframes(ctx: &mut WalkCtx, e: &Expr, quasi: &Template, filename: &str, binding: Option<&String>) -> (r: Result<(), CssError>)
    ensures
        walk_res(r, *final(ctx)) == keyframes_step(*quasi, *e, ctx_view(*old(ctx)), filename@, opt_ref_view(binding)),
{
    reveal(keyframes_step);
    let site = match process_keyframes_template(quasi, filename) {
        Ok(s) => s,
        Err(x) => {
            return Err(x);
        },
    };
    let rep = quoted("kf_", &site.hash);
    proof {
        assert(rep@ =~= "\""@ + ("kf_"@ + site.hash@) + "\""@);
    }
    let anim = prefixed("kf_", &site.hash);
    let name = string_of(&anim);
    let css = string_of(&site.css);
    let ghost before = ctx_view(*ctx);
    ctx.edits.push(Edit { start: e.start, end: e.end, replacement: rep });
    if let Some(n) = binding {
        ctx.bindings.push(KfBinding { name: n.clone(), anim: anim.clone() });
        proof {
            assert(bindings_view(ctx.bindings@) =~= before.bindings.push((n@, anim@)));
        }
    }
    ctx.keyframes.push(KeyframeRule { hash: site.hash, name, css, map: site.map });
    proof {
        assert(ctx_view(*ctx).edits =~= before.edits.push(edit_view(ctx.edits@.last())));
        assert(ctx_view(*ctx).keyframes =~= before.keyframes.push(
            KfRuleV {
                hash: ctx.keyframes@.last().hash@,
                name: ctx.keyframes@.last().name@,
                css: ctx.keyframes@.last().css@,
                map: opt_view(ctx.keyframes@.last().map),
            },
        ));
    }
    Ok(())
}

/// Walks an expression, extracting the sites in it; `binding` is the variable
/// that the expression initialises, if any.
pub fn walk_expression(
    e: &Expr,
    ctx: &mut WalkCtx,
    filename: &str,
    theme: &Option<ThemeNode>,
    binding: Option<&String>,
) -> (r: Result<(), CssError>)
    ensures
        walk_res(r, *final(ctx)) == walk_expr_spec(*e, ctx_view(*old(ctx)), filename@, *theme, opt_ref_view(binding)),
    decreases e,
{
    match &e.kind {
        ExprKind::Call(callee, args) => {
            if is_ident_exec(callee, "css") && args.len() > 0 {
                if let ExprKind::Object(ps) = &args[0].kind {
                    return record_css(ctx, e, ps, filename, theme);
                }
                if let Some(ps) = extract_theme_arrow_body(&args[0]) {
                    return record_css(ctx, e, ps, filename, theme);
                }
            }
            match walk_expression(callee, ctx, filename, theme, None) {
                Ok(()) => {},
                Err(x) => {
                    return Err(x);
                },
            }
            walk_expressions(args, ctx, filename, theme)
        },
        ExprKind::TaggedTemplate(tag, quasi) => {
            if is_ident_exec(tag, "globalCss") {
                return record_global(ctx, e, quasi, filename, theme);
            }
            if is_ident_exec(tag, "keyframes") {
                return record_keyframes(ctx, e, quasi, filename, binding);
            }
            Ok(())
        },
        ExprKind::Arrow(_, body) => walk_statements(body, ctx, filename, theme),
        ExprKind::Jsx(items) => walk_expressions(items, ctx, filename, theme),
        ExprKind::Paren(inner) => walk_expression(inner, ctx, filename, theme, None),
        _ => Ok(()),
    }
}

/// Walks a list of expressions in order.
pub fn walk_expressions(es: &Vec<Expr>, ctx: &mut WalkCtx, filename: &str, theme: &Option<ThemeNode>) -> (r: Result<(), CssError>)
    ensures
        walk_res(r, *final(ctx)) == walk_exprs_spec(es@, ctx_view(*old(ctx)), filename@, *theme),
    decreases es,
{
    let mut i: usize = 0;
    assert(es@.subrange(0, es@.len() as int) == es@);
    while i < es.len()
        invariant
            i <= es@.len(),
            walk_exprs_spec(es@, ctx_view(*old(ctx)), filename@, *theme) == walk_exprs_spec(
                es@.subrange(i as int, es@.len() as int),
                ctx_view(*ctx),
                filename@,
                *theme,
            ),
        decreases es@.len() - i,
    {
        proof {
            let rest = es@.subrange(i as int, es@.len() as int);
            assert(rest[0] == es@[i as int]);
            assert(rest.drop_first() == es@.subrange(i as int + 1, es@.len() as int));
            vstd::std_specs::vec::axiom_vec_index_decreases(*es, i as int);
        }
        match walk_expression(&es[i], ctx, filename, theme, None) {
            Ok(()) => {},
            Err(x) => {
                return Err(x);
            },
        }
        i = i + 1;
    }
    Ok(())
}

/// Walks a list of statements in order.
pub fn walk_statements(ss: &Vec<Stmt>, ctx: &mut WalkCtx, filename: &str, theme: &Option<ThemeNode>) -> (r: Result<(), CssError>)
    ensures
        walk_res(r, *final(ctx)) == walk_stmts_spec(ss@, ctx_view(*old(ctx)), filename@, *theme),
    decreases ss,
{
    let mut i: usize = 0;
    assert(ss@.subrange(0, ss@.len() as int) == ss@);
    while i < ss.len()
        invariant
            i <= ss@.len(),
            walk_stmts_spec(ss@, ctx_view(*old(ctx)), filename@, *theme) == walk_stmts_spec(
                ss@.subrange(i as int, ss@.len() as int),
                ctx_view(*ctx),
                filename@,
                *theme,
            ),
        decreases ss@.len() - i,
    {
        proof {
            let rest = ss@.subrange(i as int, ss@.len() as int);
            assert(rest[0] == ss@[i as int]);
            assert(rest.drop_first() == ss@.subrange(i as int + 1, ss@.len() as int));
            vstd::std_specs::vec::axiom_vec_index_decreases(*ss, i as int);
        }
        match walk_statement(&ss[i], ctx, filename, theme) {
            Ok(()) => {},
            Err(x) => {
                return Err(x);
            },
        }
        i = i + 1;
    }
    Ok(())
}

/// Walks the declarators of a variable declaration in order.
pub fn walk_declarators(ds: &Vec<Declarator>, ctx: &mut WalkCtx, filename: &str, theme: &Option<ThemeNode>) -> (r: Result<(), CssError>)
    ensures
        walk_res(r, *final(ctx)) == walk_decls_spec(ds@, ctx_view(*old(ctx)), filename@, *theme),
    decreases ds,
{
    let mut i: usize = 0;
    assert(ds@.subrange(0, ds@.len() as int) == ds@);
    while i < ds.len()
        invariant
            i <= ds@.len(),
            walk_decls_spec(ds@, ctx_view(*old(ctx)), filename@, *theme) == walk_decls_spec(
                ds@.subrange(i as int, ds@.len() as int),
                ctx_view(*ctx),
                filename@,
                *theme,
            ),
        decreases ds@.len() - i,
    {
        proof {
            let rest = ds@.subrange(i as int, ds@.len() as int);
            assert(rest[0] == ds@[i as int]);
            assert(rest.drop_first() == ds@.subrange(i as int + 1, ds@.len() as int));
            vstd::std_specs::vec::axiom_vec_index_decreases(*ds, i as int);
        }
        let d = &ds[i];
        if let Some(init) = &d.init {
            proof {
                assert(decreases_to!(*ds => ds@[i as int]));
                assert(decreases_to!(ds@[i as int] => d.init));
            }
            let b: Option<&String> = match &d.name {
                Some(n) => Some(n),
                None => None,
            };
            assert(opt_ref_view(b) == opt_view(d.name));
            match walk_expression(init, ctx, filename, theme, b) {
                Ok(()) => {},
                Err(x) => {
                    return Err(x);
                },
            }
        }
        i = i + 1;
    }
    Ok(())
}

/// Walks a statement, extracting the sites in it.
pub fn walk_statement(s: &Stmt, ctx: &mut WalkCtx, filename: &str, theme: &Option<ThemeNode>) -> (r: Result<(), CssError>)
    ensures
        walk_res(r, *final(ctx)) == walk_stmt_spec(*s, ctx_view(*old(ctx)), filename@, *theme),
    decreases s,
{
    match s {
        Stmt::Expr(e) => walk_expression(e, ctx, filename, theme, None),
        Stmt::Var(ds) => walk_declarators(ds, ctx, filename, theme),
        Stmt::Return(Some(e)) => walk_expression(e, ctx, filename, theme, None),
        Stmt::Return(None) => Ok(()),
        Stmt::Block(ss) => walk_statements(ss, ctx, filename, theme),
        Stmt::If(c, alt) => {
            match walk_statement(c, ctx, filename, theme) {
                Ok(()) => {},
                Err(x) => {
                    return Err(x);
                },
            }
            match alt {
                Some(a) => walk_statement(a, ctx, filename, theme),
                None => Ok(()),
            }
        },
        Stmt::Other => Ok(()),
    }
}

/// The text of a diagnostic before its detail.
pub open spec fn head_text(kind: ErrorKind) -> Seq<char> {
    match kind {
        ErrorKind::ThemeMissing => "css() - theme."@,
        ErrorKind::ThemeNonScalar => "css() - theme."@,
        ErrorKind::RuntimeIdent => "css() - only static values are supported (identifier '"@,
        ErrorKind::ContainerArg => "container() - "@,
        _ => ""@,
    }
}

/// The text of a diagnostic after its detail, ending with a hint.
pub open spec fn tail_text(kind: ErrorKind) -> Seq<char> {
    match kind {
        ErrorKind::ThemeMissing => " does not exist in the theme object.\nHint: check your theme definition."@,
        ErrorKind::ThemeNonScalar => " resolves to a non-scalar value (object/array). Only string and number leaf values are supported.\nHint: point the path at a string or number leaf."@,
        ErrorKind::NoTheme => "css() - 'theme' is referenced but no theme was provided.\nHint: provide a theme to the transform."@,
        ErrorKind::ComputedMember => "css() - computed member access (e.g. theme.colors[key]) is not supported. Use a static property name.\nHint: extract the value to a constant or use a CSS variable."@,
        ErrorKind::RuntimeIdent => "' is a runtime variable).\nHint: extract the value to a constant or use a CSS variable."@,
        ErrorKind::NotStatic => "css() - only static values are supported (property: dynamic expression).\nHint: extract the value to a constant or use a CSS variable."@,
        ErrorKind::SubNonNumeric => "css() - subtraction is only supported between numbers.\nHint: extract the value to a constant."@,
        ErrorKind::MulNonNumeric => "css() - multiplication is only supported between numbers.\nHint: extract the value to a constant."@,
        ErrorKind::DivInvalid => "css() - division by zero or non-numeric operand.\nHint: extract the value to a constant."@,
        ErrorKind::BadOperator => "css() - unsupported binary operator in theme expression.\nHint: use +, -, * or /."@,
        ErrorKind::NumberRange => "css() - number out of the supported range.\nHint: extract the value to a constant."@,
        ErrorKind::UnsupportedKey => "css() - computed/private property keys are not supported.\nHint: use a plain string or identifier as the property name."@,
        ErrorKind::UnsupportedSpread => "css() - spread properties are not supported.\nHint: inline the spread object's properties directly into this css() call."@,
        ErrorKind::ContainerArity => "container() - expected 1 or 2 arguments: container(type) or container(name, type).\nHint: pass a type, or a name and a type."@,
        ErrorKind::ContainerArg => " must be a static string literal.\nHint: pass a string literal."@,
        ErrorKind::TooDeep => "css() - objects are nested too deeply.\nHint: flatten the nested selectors."@,
        ErrorKind::GlobalInterpolation => "globalCss - interpolations must be static string or number values.\nHint: extract the value to a constant or use a CSS variable."@,
        ErrorKind::KeyframesInterpolation => "keyframes - interpolations must be static string or number values.\nHint: extract the value to a constant."@,
        ErrorKind::Engine => ""@,
    }
}

fn head_exec(kind: ErrorKind) -> (r: &'static str)
    ensures
        r@ == head_text(kind),
{
    match kind {
        ErrorKind::ThemeMissing => "css() - theme.",
        ErrorKind::ThemeNonScalar => "css() - theme.",
        ErrorKind::RuntimeIdent => "css() - only static values are supported (identifier '",
        ErrorKind::ContainerArg => "container() - ",
        _ => "",
    }
}

fn tail_exec(kind: ErrorKind) -> (r: &'static str)
    ensures
        r@ == tail_text(kind),
{
    match kind {
        ErrorKind::ThemeMissing => " does not exist in the theme object.\nHint: check your theme definition.",
        ErrorKind::ThemeNonScalar => " resolves to a non-scalar value (object/array). Only string and number leaf values are supported.\nHint: point the path at a string or number leaf.",
        ErrorKind::NoTheme => "css() - 'theme' is referenced but no theme was provided.\nHint: provide a theme to the transform.",
        ErrorKind::ComputedMember => "css() - computed member access (e.g. theme.colors[key]) is not supported. Use a static property name.\nHint: extract the value to a constant or use a CSS variable.",
        ErrorKind::RuntimeIdent => "' is a runtime variable).\nHint: extract the value to a constant or use a CSS variable.",
        ErrorKind::NotStatic => "css() - only static values are supported (property: dynamic expression).\nHint: extract the value to a constant or use a CSS variable.",
        ErrorKind::SubNonNumeric => "css() - subtraction is only supported between numbers.\nHint: extract the value to a constant.",
        ErrorKind::MulNonNumeric => "css() - multiplication is only supported between numbers.\nHint: extract the value to a constant.",
        ErrorKind::DivInvalid => "css() - division by zero or non-numeric operand.\nHint: extract the value to a constant.",
        ErrorKind::BadOperator => "css() - unsupported binary operator in theme expression.\nHint: use +, -, * or /.",
        ErrorKind::NumberRange => "css() - number out of the supported range.\nHint: extract the value to a constant.",
        ErrorKind::UnsupportedKey => "css() - computed/private property keys are not supported.\nHint: use a plain string or identifier as the property name.",
        ErrorKind::UnsupportedSpread => "css() - spread properties are not supported.\nHint: inline the spread object's properties directly into this css() call.",
        ErrorKind::ContainerArity => "container() - expected 1 or 2 arguments: container(type) or container(name, type).\nHint: pass a type, or a name and a type.",
        ErrorKind::ContainerArg => " must be a static string literal.\nHint: pass a string literal.",
        ErrorKind::TooDeep => "css() - objects are nested too deeply.\nHint: flatten the nested selectors.",
        ErrorKind::GlobalInterpolation => "globalCss - interpolations must be static string or number values.\nHint: extract the value to a constant or use a CSS variable.",
        ErrorKind::KeyframesInterpolation => "keyframes - interpolations must be static string or number values.\nHint: extract the value to a constant.",
        ErrorKind::Engine => "",
    }
}

/// The diagnostic of a failure: `<file>:<line>:<col>: ` and the text of its
/// kind around its detail; an engine failure gives `<file>: ` and the
/// engine's message.
pub open spec fn message_of(e: CssErr, filename: Seq<char>, source: Seq<u8>) -> Seq<char> {
    if e.kind == ErrorKind::Engine {
        filename + ": "@ + e.detail
    } else {
        filename + ":"@ + digits(line_of(source, e.start as nat)) + ":"@ + digits(
            col_of(source, e.start as nat),
        ) + ": "@ + head_text(e.kind) + e.detail + tail_text(e.kind)
    }
}

/// The diagnostic of `e` in the file `filename` with text `source`.
pub fn describe(e: &CssError, filename: &str, source: &str) -> (r: TransformError)
    requires
        source.spec_bytes().len() < u32::MAX,
    ensures
        r.message@ == message_of(e@, filename@, source.spec_bytes()),
        r.status == (if e.kind == ErrorKind::Engine {
            Status::GenericFailure
        } else {
            Status::InvalidArg
        }),
{
    let mut m = chars_of(filename);
    if e.kind == ErrorKind::Engine {
        push_str(&mut m, ": ");
        push_all(&mut m, &e.detail);
        return TransformError { status: Status::GenericFailure, message: string_of(&m) };
    }
    let (line, col) = byte_offset_to_line_col(source, e.start);
    push_str(&mut m, ":");
    push_all(&mut m, &digits_exec(line as u64));
    push_str(&mut m, ":");
    push_all(&mut m, &digits_exec(col as u64));
    push_str(&mut m, ": ");
    push_str(&mut m, head_exec(e.kind));
    push_all(&mut m, &e.detail);
    push_str(&mut m, tail_exec(e.kind));
    TransformError { status: Status::InvalidArg, message: string_of(&m) }
}

/// Relies on `String::from_utf8`: on success the string holds exactly the given bytes.
#[verifier::external_body]
fn string_from_utf8(b: Vec<u8>) -> (r: Option<String>)
    ensures
        r matches Some(s) ==> vstd::utf8::encode_utf8(s@) == b@,
        r is None ==> forall|s: Seq<char>| vstd::utf8::encode_utf8(s) != b@,
{
    String::from_utf8(b).ok()
}

/// The result of a file in which nothing is extracted: the source unchanged.
pub fn unchanged(source: &str) -> (r: TransformResult)
    ensures
        r.code@ == source@,
        r.css_rules@.len() == 0,
        r.global_css@.len() == 0,
        r.keyframes@.len() == 0,
        r.edits@.len() == 0,
        r.map is None,
{
    TransformResult {
        code: source.to_owned(),
        css_rules: Vec::new(),
        global_css: Vec::new(),
        keyframes: Vec::new(),
        map: None,
        edits: Vec::new(),
    }
}

/// Whether edit views lie within a text of `len` bytes, each range well formed
/// and each one after the end of the one before.
pub open spec fn views_in_order(len: nat, edits: Seq<EditV>) -> bool {
    &&& forall|i: int| 0 <= i < edits.len() ==> #[trigger] edits[i].start <= edits[i].end
    &&& forall|i: int| 0 <= i < edits.len() ==> #[trigger] edits[i].end <= len
    &&& forall|i: int, j: int| 0 <= i < j < edits.len() ==> #[trigger] edits[i].end
        <= #[trigger] edits[j].start
}

proof fn lemma_views_in_order(len: nat, es: Seq<Edit>)
    ensures
        edits_in_order(len, es) == views_in_order(len, edits_view(es)),
{
    let v = edits_view(es);
    assert forall|i: int| 0 <= i < es.len() implies #[trigger] v[i] == edit_view(es[i]) by {}
    if edits_in_order(len, es) {
        assert forall|i: int, j: int| 0 <= i < j < v.len() implies #[trigger] v[i].end
            <= #[trigger] v[j].start by {
            assert(es[i].end <= es[j].start);
        }
    }
    if views_in_order(len, v) {
        assert forall|i: int, j: int| 0 <= i < j < es.len() implies #[trigger] es[i].end
            <= #[trigger] es[j].start by {
            assert(v[i].end <= v[j].start);
        }
        assert forall|i: int| 0 <= i < es.len() implies #[trigger] es[i].start <= es[i].end by {
            assert(v[i].start <= v[i].end);
        }
        assert forall|i: int| 0 <= i < es.len() implies #[trigger] es[i].end <= len by {
            assert(v[i].end <= len);
        }
    }
}

/// Whether a result holds the edits and artifacts of a walk.
pub open spec fn holds_walk(res: TransformResult, st: WalkState) -> bool {
    &&& edits_view(res.edits@) == st.edits
    &&& rules_view(res.css_rules@) == st.css_rules
    &&& globals_view(res.global_css@) == st.global_css
    &&& keyframes_view(res.keyframes@) == st.keyframes
}

/// The status of a failure: invalid input, or a failure of the engine.
pub open spec fn status_of(e: CssErr) -> Status {
    if e.kind == ErrorKind::Engine { Status::GenericFailure } else { Status::InvalidArg }
}

/// Extracts every site of `program`, the syntax tree of `source`, and rewrites
/// each site in the source to its generated identifier. The first site that
/// cannot be extracted fails the whole file with its diagnostic.
pub fn transform(filename: &str, source: &str, program: &Vec<Stmt>, theme: &Option<ThemeNode>) -> (r: Result<
    TransformResult,
    TransformError,
>)
    requires
        source.spec_bytes().len() < u32::MAX,
    ensures
        match walk_stmts_spec(program@, empty_state(), filename@, *theme) {
            Err(x) => (r matches Err(t) && t.message@ == message_of(x, filename@, source.spec_bytes())
                && t.status == status_of(x)),
            Ok(st) => {
                &&& r matches Ok(res) ==> {
                    &&& holds_walk(res, st)
                    &&& edits_in_order(source.spec_bytes().len(), res.edits@)
                    &&& vstd::utf8::encode_utf8(res.code@) == splice(source.spec_bytes(), res.edits@)
                    &&& res.map is None
                }
                &&& st.edits.len() == 0 ==> (r matches Ok(res) && res.code@ == source@)
                &&& r matches Err(t) ==> {
                    &&& t.status == Status::GenericFailure
                    &&& !views_in_order(source.spec_bytes().len(), st.edits) || t.message@
                        == "site spans split a character of the source"@
                }
            },
        },
{
    let mut ctx = WalkCtx {
        edits: Vec::new(),
        css_rules: Vec::new(),
        global_css: Vec::new(),
        keyframes: Vec::new(),
        bindings: Vec::new(),
    };
    proof {
        assert(ctx_view(ctx).edits =~= empty_state().edits);
        assert(ctx_view(ctx).css_rules =~= empty_state().css_rules);
        assert(ctx_view(ctx).global_css =~= empty_state().global_css);
        assert(ctx_view(ctx).keyframes =~= empty_state().keyframes);
        assert(ctx_view(ctx).bindings =~= empty_state().bindings);
    }
    match walk_statements(program, &mut ctx, filename, theme) {
        Ok(()) => {},
        Err(x) => {
            return Err(describe(&x, filename, source));
        },
    }
    let bytes = source.as_bytes();
    proof {
        lemma_views_in_order(bytes@.len(), ctx.edits@);
    }
    if ctx.edits.len() == 0 {
        proof {
            assert(source.spec_bytes().subrange(0, source.spec_bytes().len() as int) =~= source.spec_bytes());
        }
        return Ok(
            TransformResult {
                code: source.to_owned(),
                css_rules: ctx.css_rules,
                global_css: ctx.global_css,
                keyframes: ctx.keyframes,
                map: None,
                edits: ctx.edits,
            },
        );
    }
    if !check_edits(bytes.len(), &ctx.edits) {
        return Err(
            TransformError {
                status: Status::GenericFailure,
                message: "site spans overlap or lie outside the source".to_string(),
            },
        );
    }
    let out = apply_edits(bytes, &ctx.edits);
    let code = match string_from_utf8(out) {
        Some(c) => c,
        None => {
            return Err(
                TransformError {
                    status: Status::GenericFailure,
                    message: "site spans split a character of the source".to_string(),
                },
            );
        },
    };
    Ok(
        TransformResult {
            code,
            css_rules: ctx.css_rules,
            global_css: ctx.global_css,
            keyframes: ctx.keyframes,
            map: None,
            edits: ctx.edits,
        },
    )
}

} // verus!
