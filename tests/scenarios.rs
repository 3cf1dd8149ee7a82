use css_extract::ast::{BinOp, Declarator, Expr, ExprKind, Prop, PropKey, Stmt, Template};
use css_extract::eval::{eval_value_expr, ErrorKind};
use css_extract::hash::hash8;
use css_extract::num::Num;
use css_extract::render::StaticValue;
use css_extract::theme::{ThemeEntry, ThemeNode};
use css_extract::transform::{transform, Status, TransformResult};

/// The rules of minified CSS, each with its declarations sorted: the engine
/// may print the declarations of a rule in another order.
fn rules(css: &str) -> Vec<(String, Vec<String>)> {
    css.split('}')
        .filter(|b| !b.is_empty())
        .map(|b| {
            let (sel, body) = b.split_once('{').expect("a block");
            let mut decls: Vec<String> = body.split(';').map(|d| d.to_string()).collect();
            decls.sort();
            (sel.to_string(), decls)
        })
        .collect()
}

fn at(src: &str, pat: &str) -> u32 {
    src.find(pat).expect("pattern in source") as u32
}

fn e(start: u32, end: u32, kind: ExprKind) -> Expr {
    Expr { start, end, kind }
}

fn ident(name: &str, start: u32) -> Expr {
    e(start, start + name.len() as u32, ExprKind::Ident(name.to_string()))
}

fn num(mant: i64, scale: u32, start: u32) -> Expr {
    e(start, start + 1, ExprKind::Num(Num { mant, scale }))
}

fn string(value: &str, start: u32) -> Expr {
    e(start, start + value.len() as u32 + 2, ExprKind::Str(value.to_string()))
}

fn kv(key: &str, value: Expr) -> Prop {
    Prop::KeyValue(PropKey::Name(key.to_string()), value)
}

fn object(start: u32, end: u32, props: Vec<Prop>) -> Expr {
    e(start, end, ExprKind::Object(props))
}

fn call(callee: Expr, args: Vec<Expr>, start: u32, end: u32) -> Expr {
    e(start, end, ExprKind::Call(Box::new(callee), args))
}

fn member(object: Expr, name: &str, end: u32) -> Expr {
    let start = object.start;
    e(start, end, ExprKind::StaticMember(Box::new(object), name.to_string()))
}

fn template(start: u32, quasis: &[&str], exprs: Vec<Expr>) -> Template {
    Template { start, quasis: quasis.iter().map(|q| q.to_string()).collect(), exprs }
}

fn tagged(tag: &str, start: u32, end: u32, tpl: Template) -> Expr {
    e(start, end, ExprKind::TaggedTemplate(Box::new(ident(tag, start)), tpl))
}

fn var(name: &str, init: Expr) -> Stmt {
    Stmt::Var(vec![Declarator { name: Some(name.to_string()), init: Some(init) }])
}

fn css_call(src: &str, props: Vec<Prop>) -> Expr {
    let s = at(src, "css(");
    let end = src.rfind(')').unwrap() as u32 + 1;
    let obj_start = at(src, "{");
    let obj_end = src.rfind('}').unwrap() as u32 + 1;
    call(ident("css", s), vec![object(obj_start, obj_end, props)], s, end)
}

fn theme_of(entries: Vec<(&str, ThemeNode)>) -> ThemeNode {
    ThemeNode::Obj(
        entries
            .into_iter()
            .map(|(k, v)| ThemeEntry { key: k.to_string(), value: v })
            .collect(),
    )
}

fn run(src: &str, program: Vec<Stmt>, theme: Option<ThemeNode>) -> TransformResult {
    match transform("input.js", src, &program, &theme) {
        Ok(r) => r,
        Err(err) => panic!("transform failed: {}", err.message),
    }
}

fn failure(src: &str, program: Vec<Stmt>, theme: Option<ThemeNode>) -> (Status, String) {
    match transform("input.js", src, &program, &theme) {
        Ok(_) => panic!("transform succeeded"),
        Err(err) => (err.status, err.message),
    }
}

#[test]
fn object_site_with_units() {
    let src = "const a = css({ fontSize: 12, opacity: 0.5 })";
    let site = css_call(src, vec![kv("fontSize", num(12, 0, 26)), kv("opacity", num(5, 1, 39))]);
    let r = run(src, vec![var("a", site)], None);
    let h = hash8(&format!("input.js:{}", at(src, "css(")));
    assert_eq!(r.code, format!("const a = \"cls_{}\"", h));
    assert_eq!(r.css_rules.len(), 1);
    assert_eq!(r.css_rules[0].hash, h);
    assert_eq!(rules(&r.css_rules[0].css), rules(&format!(".cls_{}{{font-size:12px;opacity:.5}}", h)));
    assert!(r.global_css.is_empty() && r.keyframes.is_empty());
    assert!(r.css_rules[0].map.as_deref().map_or(false, |m| m.contains("\"mappings\"")));
    assert_eq!(r.edits.len(), 1);
    assert_eq!(r.edits[0].start, 10);
    assert_eq!(r.edits[0].end, src.len() as u32);
}

#[test]
fn themed_arrow_site() {
    let src = "const a = css(({theme}) => ({ color: theme.c.p }))";
    let th = ident("theme", at(src, "theme.c"));
    let value = member(member(th, "c", at(src, ".p")), "p", at(src, " }))"));
    let obj = object(at(src, "{ color"), at(src, "))") - 1, vec![kv("color", value)]);
    let paren = e(obj.start - 1, obj.end + 1, ExprKind::Paren(Box::new(obj)));
    let arrow = e(at(src, "(({"), at(src, "))") + 1, ExprKind::Arrow(1, vec![Stmt::Expr(paren)]));
    let s = at(src, "css(");
    let site = call(ident("css", s), vec![arrow], s, src.len() as u32);
    let theme = theme_of(vec![("c", theme_of(vec![("p", ThemeNode::Str("#0af".to_string()))]))]);
    let r = run(src, vec![var("a", site)], Some(theme));
    let h = hash8(&format!("input.js:{}", s));
    assert_eq!(r.css_rules[0].css, format!(".cls_{}{{color:#0af}}", h));
}

fn keyframes_then_css(src: &str, first: Stmt) -> (Vec<Stmt>, u32) {
    let name_at = at(src, "${k}") + 2;
    let tpl_start = at(src, "`${k}");
    let value = e(
        tpl_start,
        tpl_start + 9,
        ExprKind::Template(template(tpl_start, &["", " 1s"], vec![ident("k", name_at)])),
    );
    let s = at(src, "css(");
    let obj = object(at(src, "{ anim"), src.len() as u32 - 1, vec![kv("animationName", value)]);
    let site = call(ident("css", s), vec![obj], s, src.len() as u32);
    (vec![first, var("a", site)], s)
}

#[test]
fn keyframes_binding_is_visible_to_later_sites() {
    let src = "const k = keyframes`from{opacity:0}to{opacity:1}`; const a = css({ animationName: `${k} 1s` })";
    let kf_start = at(src, "keyframes");
    let tpl_start = at(src, "`from");
    let kf_end = at(src, ";") ;
    let kf = tagged("keyframes", kf_start, kf_end, template(tpl_start, &["from{opacity:0}to{opacity:1}"], vec![]));
    let (program, s) = keyframes_then_css(src, var("k", kf));
    let r = run(src, program, None);
    let h1 = hash8(&format!("input.js:{}", tpl_start));
    let h2 = hash8(&format!("input.js:{}", s));
    assert_eq!(r.keyframes.len(), 1);
    assert_eq!(r.keyframes[0].name, format!("kf_{}", h1));
    assert_eq!(r.keyframes[0].hash, h1);
    assert!(r.keyframes[0].css.contains(&format!("@keyframes kf_{}", h1)));
    assert!(r.css_rules[0].css.contains(&format!("animation-name:kf_{} 1s", h1)));
    assert!(r.code.starts_with(&format!("const k = \"kf_{}\";", h1)));
    assert!(r.code.ends_with(&format!("const a = \"cls_{}\"", h2)));
}

#[test]
fn non_keyframes_binding_is_a_runtime_variable() {
    let src = "const k = 1; const a = css({ animationName: `${k} 1s` })";
    let (program, _) = keyframes_then_css(src, var("k", num(1, 0, 10)));
    let (status, message) = failure(src, program, None);
    assert_eq!(status, Status::InvalidArg);
    assert!(message.contains("identifier 'k' is a runtime variable"));
    assert!(message.starts_with("input.js:1:"));
}

#[test]
fn global_template_is_replaced_by_undefined() {
    let src = "globalCss`body{margin:0}`";
    let tpl = template(9, &["body{margin:0}"], vec![]);
    let site = tagged("globalCss", 0, src.len() as u32, tpl);
    let r = run(src, vec![Stmt::Expr(site)], None);
    assert_eq!(r.code, "undefined");
    assert_eq!(r.global_css.len(), 1);
    assert_eq!(r.global_css[0].css, "body{margin:0}");
    assert_eq!(r.global_css[0].hash, hash8("input.js:9"));
}

#[test]
fn runtime_identifier_is_refused() {
    let src = "css({ color: someVar })";
    let site = css_call(src, vec![kv("color", ident("someVar", at(src, "someVar")))]);
    let (status, message) = failure(src, vec![Stmt::Expr(site)], None);
    assert_eq!(status, Status::InvalidArg);
    assert!(message.contains("identifier 'someVar' is a runtime variable"));
    assert!(message.starts_with("input.js:1:14: "));
    assert!(message.contains("Hint:"));
}

#[test]
fn container_spread_is_expanded() {
    let src = "css({ ...container('inline-size') })";
    let c = at(src, "container");
    let arg = string("inline-size", at(src, "'inline"));
    let spread = Prop::Spread(at(src, "..."), call(ident("container", c), vec![arg], c, at(src, ") }") + 1));
    let site = css_call(src, vec![spread]);
    let r = run(src, vec![Stmt::Expr(site)], None);
    assert!(r.css_rules[0].css.contains("container-type:inline-size"));
}

#[test]
fn named_container_spread_is_expanded() {
    let src = "css({ ...container('side', 'inline-size') })";
    let c = at(src, "container");
    let args = vec![string("side", at(src, "'side")), string("inline-size", at(src, "'inline"))];
    let spread = Prop::Spread(at(src, "..."), call(ident("container", c), args, c, at(src, ") }") + 1));
    let site = css_call(src, vec![spread]);
    let r = run(src, vec![Stmt::Expr(site)], None);
    assert!(r.css_rules[0].css.contains("container:side/inline-size"));
}

fn theme_path(path: &[&str]) -> Expr {
    let mut x = ident("theme", 0);
    for p in path {
        x = member(x, p, 1);
    }
    x
}

#[test]
fn theme_path_resolves_to_leaf() {
    let theme = Some(theme_of(vec![(
        "a",
        theme_of(vec![("b", theme_of(vec![("c", ThemeNode::Str("red".to_string()))]))]),
    )]));
    match eval_value_expr(&theme_path(&["a", "b", "c"]), &theme) {
        Ok(StaticValue::Str(s)) => assert_eq!(s.iter().collect::<String>(), "red"),
        _ => panic!("expected a string"),
    }
    match eval_value_expr(&theme_path(&["a", "x", "c"]), &theme) {
        Err(err) => {
            assert_eq!(err.kind, ErrorKind::ThemeMissing);
            assert_eq!(err.detail.iter().collect::<String>(), "a.x.c");
        },
        Ok(_) => panic!("expected a failure"),
    }
}

#[test]
fn missing_theme_path_is_reported() {
    let src = "css({ color: theme.a.b.c })";
    let value = theme_path(&["a", "b", "c"]);
    let site = css_call(src, vec![kv("color", value)]);
    let theme = Some(theme_of(vec![("a", theme_of(vec![]))]));
    let (status, message) = failure(src, vec![Stmt::Expr(site)], theme);
    assert_eq!(status, Status::InvalidArg);
    assert!(message.contains("theme.a.b.c does not exist"));
}

#[test]
fn theme_leaf_that_is_an_object_is_refused() {
    let theme = Some(theme_of(vec![("a", theme_of(vec![]))]));
    let err = eval_value_expr(&theme_path(&["a"]), &theme).err().unwrap();
    assert_eq!(err.kind, ErrorKind::ThemeNonScalar);
}

#[test]
fn theme_without_theme_is_refused() {
    let err = eval_value_expr(&theme_path(&["a"]), &None).err().unwrap();
    assert_eq!(err.kind, ErrorKind::NoTheme);
}

#[test]
fn arithmetic_and_concatenation() {
    let sum = e(0, 5, ExprKind::Binary(BinOp::Add, Box::new(num(2, 0, 0)), Box::new(num(5, 1, 4))));
    match eval_value_expr(&sum, &None) {
        Ok(StaticValue::Num(n)) => assert_eq!(n, Num { mant: 25, scale: 1 }),
        _ => panic!("expected a number"),
    }
    let cat = e(0, 5, ExprKind::Binary(BinOp::Add, Box::new(num(4, 0, 0)), Box::new(string("px", 4))));
    match eval_value_expr(&cat, &None) {
        Ok(StaticValue::Str(s)) => assert_eq!(s.iter().collect::<String>(), "4px"),
        _ => panic!("expected a string"),
    }
    let half = e(0, 5, ExprKind::Binary(BinOp::Div, Box::new(num(8, 0, 0)), Box::new(num(16, 0, 4))));
    match eval_value_expr(&half, &None) {
        Ok(StaticValue::Num(n)) => assert_eq!(css_extract::render::render_num_exec(n).iter().collect::<String>(), "0.5"),
        _ => panic!("expected a number"),
    }
}

#[test]
fn arithmetic_failures() {
    let kinds = [
        (BinOp::Sub, string("a", 0), ErrorKind::SubNonNumeric),
        (BinOp::Mul, string("a", 0), ErrorKind::MulNonNumeric),
        (BinOp::Div, num(0, 0, 0), ErrorKind::DivInvalid),
        (BinOp::Other, num(1, 0, 0), ErrorKind::BadOperator),
    ];
    for (op, right, kind) in kinds {
        let x = e(3, 9, ExprKind::Binary(op, Box::new(num(1, 0, 3)), Box::new(right)));
        let err = eval_value_expr(&x, &None).err().unwrap();
        assert_eq!(err.kind, kind);
        assert_eq!(err.start, 3);
    }
}

#[test]
fn computed_and_dynamic_expressions_are_refused() {
    let c = e(4, 9, ExprKind::ComputedMember);
    assert_eq!(eval_value_expr(&c, &None).err().unwrap().kind, ErrorKind::ComputedMember);
    let o = e(4, 9, ExprKind::Other);
    assert_eq!(eval_value_expr(&o, &None).err().unwrap().kind, ErrorKind::NotStatic);
}

#[test]
fn unsupported_keys_and_spreads_are_refused() {
    let src = "css({ [k]: 1 })";
    let site = css_call(src, vec![Prop::KeyValue(PropKey::Unsupported(6), num(1, 0, 11))]);
    let (_, message) = failure(src, vec![Stmt::Expr(site)], None);
    assert!(message.contains("property keys are not supported"));
    let src = "css({ ...other })";
    let site = css_call(src, vec![Prop::Spread(6, ident("other", 9))]);
    let (_, message) = failure(src, vec![Stmt::Expr(site)], None);
    assert!(message.contains("spread properties are not supported"));
}

#[test]
fn malformed_container_calls_are_refused() {
    let src = "css({ ...container() })";
    let c = at(src, "container");
    let spread = Prop::Spread(6, call(ident("container", c), vec![], c, c + 11));
    let site = css_call(src, vec![spread]);
    let (_, message) = failure(src, vec![Stmt::Expr(site)], None);
    assert!(message.contains("expected 1 or 2 arguments"));
    let src = "css({ ...container(1) })";
    let spread = Prop::Spread(6, call(ident("container", c), vec![num(1, 0, 19)], c, c + 12));
    let site = css_call(src, vec![spread]);
    let (_, message) = failure(src, vec![Stmt::Expr(site)], None);
    assert!(message.contains("container type must be a static string literal"));
}

#[test]
fn template_interpolations_need_static_values() {
    let src = "globalCss`a{color:${c}}`";
    let tpl = template(9, &["a{color:", "}"], vec![ident("c", 20)]);
    let site = tagged("globalCss", 0, 24, tpl);
    let (_, message) = failure(src, vec![Stmt::Expr(site)], None);
    assert!(message.contains("globalCss - interpolations must be static"));
    let src = "keyframes`from{top:${t}}`";
    let tpl = template(9, &["from{top:", "}"], vec![ident("t", 21)]);
    let site = tagged("keyframes", 0, 25, tpl);
    let (_, message) = failure(src, vec![Stmt::Expr(site)], None);
    assert!(message.contains("keyframes - interpolations must be static"));
}

#[test]
fn global_template_with_literal_interpolations() {
    let src = "globalCss`a{margin:${4}px;color:${'red'}}`";
    let tpl = template(9, &["a{margin:", "px;color:", "}"], vec![num(4, 0, 20), string("red", 33)]);
    let site = tagged("globalCss", 0, src.len() as u32, tpl);
    let r = run(src, vec![Stmt::Expr(site)], None);
    assert_eq!(rules(&r.global_css[0].css), rules("a{margin:4px;color:red}"));
}

#[test]
fn engine_failure_is_a_generic_failure() {
    let src = "globalCss`..a{color:red}`";
    let tpl = template(9, &["..a{color:red}"], vec![]);
    let site = tagged("globalCss", 0, src.len() as u32, tpl);
    match transform("input.js", src, &vec![Stmt::Expr(site)], &None) {
        Err(err) => {
            assert_eq!(err.status, Status::GenericFailure);
            assert!(err.message.starts_with("input.js: LightningCSS parse error"));
        },
        Ok(r) => panic!("engine accepted: {}", r.global_css[0].css),
    }
}

#[test]
fn number_out_of_range_is_refused() {
    let big = e(0, 9, ExprKind::Binary(BinOp::Mul, Box::new(num(i64::MAX, 0, 0)), Box::new(num(2, 0, 4))));
    assert_eq!(eval_value_expr(&big, &None).err().unwrap().kind, ErrorKind::NumberRange);
}

#[test]
fn trimming_removes_surrounding_whitespace() {
    let v: Vec<char> = "  from{top:0} \n".chars().collect();
    let t: String = css_extract::engine::trim_chars(&v).iter().collect();
    assert_eq!(t, "from{top:0}");
}

#[test]
fn file_without_sites_is_unchanged() {
    let src = "const x = 1;";
    let r = run(src, vec![var("x", num(1, 0, 10))], None);
    assert_eq!(r.code, src);
    assert!(r.edits.is_empty() && r.css_rules.is_empty());
}

#[test]
fn only_the_first_placeholder_takes_the_class_name() {
    let src = "css({ color: 'red', '&:hover': { color: 'blue' } })";
    let nested = object(30, 48, vec![kv("color", string("blue", 40))]);
    let site = css_call(src, vec![kv("color", string("red", 13)), kv("&:hover", nested)]);
    let r = run(src, vec![Stmt::Expr(site)], None);
    let h = hash8("input.js:0");
    // Only the first placeholder of the printed CSS takes the class name.
    assert_eq!(rules(&r.css_rules[0].css), rules(&format!(".cls_{h}{{color:red}}.css_obj:hover{{color:#00f}}")));
}

#[test]
fn sites_are_found_in_nested_statements_and_expressions() {
    let src = "function f(){ if (x) { return <a b={globalCss`i{top:0}`}>{(globalCss`p{top:0}`)}</a> } }";
    let g1 = at(src, "globalCss`i");
    let g1_end = at(src, "}>") ;
    let first = tagged("globalCss", g1, g1_end, template(g1 + 9, &["i{top:0}"], vec![]));
    let g2 = at(src, "globalCss`p");
    let g2_end = at(src, ")}</a>");
    let second = tagged("globalCss", g2, g2_end, template(g2 + 9, &["p{top:0}"], vec![]));
    let paren = e(g2 - 1, g2_end + 1, ExprKind::Paren(Box::new(second)));
    let jsx = e(at(src, "<a"), at(src, "</a>") + 4, ExprKind::Jsx(vec![first, paren]));
    let body = Stmt::Block(vec![Stmt::If(Box::new(Stmt::Block(vec![Stmt::Return(Some(jsx))])), None)]);
    let r = run(src, vec![body], None);
    assert_eq!(r.global_css.len(), 2);
    assert_eq!(r.edits.len(), 2);
    assert_eq!(r.global_css[0].css, "i{top:0}");
    assert_eq!(r.global_css[1].css, "p{top:0}");
    assert_eq!(r.code, "function f(){ if (x) { return <a b={undefined}>{(undefined)}</a> } }");
}

#[test]
fn arrow_bodies_are_walked() {
    let src = "const f = () => css({ color: 'red' })";
    let s = at(src, "css(");
    let obj = object(at(src, "{"), src.len() as u32 - 1, vec![kv("color", string("red", at(src, "'red")))]);
    let site = call(ident("css", s), vec![obj], s, src.len() as u32);
    let arrow = e(10, src.len() as u32, ExprKind::Arrow(0, vec![Stmt::Expr(site)]));
    let r = run(src, vec![var("f", arrow)], None);
    let h = hash8(&format!("input.js:{}", s));
    assert_eq!(r.code, format!("const f = () => \"cls_{}\"", h));
    assert_eq!(r.css_rules[0].css, format!(".cls_{}{{color:red}}", h));
}

#[test]
fn out_of_range_literals_and_theme_numbers_are_refused() {
    let big = e(4, 9, ExprKind::NumOutOfRange);
    let err = eval_value_expr(&big, &None).err().unwrap();
    assert_eq!(err.kind, ErrorKind::NumberRange);
    assert_eq!(err.start, 4);
    let theme = Some(theme_of(vec![("n", ThemeNode::NumOutOfRange)]));
    assert_eq!(eval_value_expr(&theme_path(&["n"]), &theme).err().unwrap().kind, ErrorKind::NumberRange);
}
