use upon::ast::{
    BaseExpr, Call, Expr, ForLoop, Ident, IfElse, InlineExpr, KeyValue, Literal, LoopVars, Scope,
    Stmt, Template, Var,
};
use upon::error::{Error, ErrorKind, Kind, Span};
use upon::filters::{Filters, NoFilters};
use upon::render::{integer_text, template};
use upon::value::{Data, Value};

struct TestFilters;

impl Filters for TestFilters {
    fn filter_spec(&self, _name: String, _v: Data) -> Option<Data> {
        panic!("a specification, never called at run time")
    }

    fn apply(&self, name: &String, v: Value) -> Option<Value> {
        match name.as_str() {
            "upper" => Some(match v {
                Value::String(s) => Value::String(s.to_uppercase()),
                other => other,
            }),
            "shout" => Some(match v {
                Value::String(s) => Value::String(format!("{}!", s)),
                other => other,
            }),
            "len" => Some(match v {
                Value::List(l) => Value::Integer(l.len() as i64),
                Value::String(s) => Value::Integer(s.len() as i64),
                other => other,
            }),
            _ => None,
        }
    }
}

fn sp(start: usize, end: usize) -> Span {
    Span { start, end }
}

fn ident(raw: &str, start: usize) -> Ident {
    Ident { raw: raw.to_string(), span: sp(start, start + raw.len()) }
}

fn var(path: &[(&str, usize)]) -> Expr {
    let idents: Vec<Ident> = path.iter().map(|(r, s)| ident(r, *s)).collect();
    let start = idents[0].span.start;
    let end = idents[idents.len() - 1].span.end;
    Expr::Base(BaseExpr::Var(Var { path: idents, span: sp(start, end) }))
}

fn call(name: &str, at: usize, receiver: Expr) -> Expr {
    let start = receiver.span().start;
    Expr::Call(Call {
        name: ident(name, at),
        receiver: Box::new(receiver),
        span: sp(start, at + name.len()),
    })
}

fn raw(s: &str) -> Stmt {
    Stmt::Raw(s.to_string())
}

fn inline(expr: Expr) -> Stmt {
    let span = expr.span();
    Stmt::InlineExpr(InlineExpr { expr, span })
}

fn tpl(stmts: Vec<Stmt>) -> Template {
    Template { source: String::new(), scope: Scope { stmts } }
}

fn s(x: &str) -> Value {
    Value::String(x.to_string())
}

fn dict(entries: Vec<(&str, Value)>) -> Value {
    Value::Dict(entries.into_iter().map(|(k, v)| (k.to_string(), v)).collect())
}

#[test]
fn renders_greeting() {
    // "Hi {{ name }}!"
    let t = tpl(vec![raw("Hi "), inline(var(&[("name", 6)])), raw("!")]);
    let r = template(&NoFilters, &t, dict(vec![("name", s("Bo"))]));
    assert_eq!(r.unwrap(), "Hi Bo!");
}

#[test]
fn renders_list_loop() {
    // "{% for n in items %}{{ n }},{% endfor %}"
    let body = Scope { stmts: vec![inline(var(&[("n", 23)])), raw(",")] };
    let fl = ForLoop { vars: LoopVars::Item(ident("n", 7)), iterable: var(&[("items", 12)]), body };
    let t = tpl(vec![Stmt::ForLoop(fl)]);
    let items = Value::List(vec![Value::Integer(1), Value::Integer(2), Value::Integer(3)]);
    let r = template(&NoFilters, &t, dict(vec![("items", items)]));
    assert_eq!(r.unwrap(), "1,2,3,");
}

#[test]
fn missing_variable_is_not_found() {
    // "{{ missing }}"
    let t = tpl(vec![inline(var(&[("missing", 3)]))]);
    let err = template(&NoFilters, &t, dict(vec![])).unwrap_err();
    assert_eq!(err, Error { kind: ErrorKind::NotFound, span: sp(3, 10) });
    assert_eq!(err.message(), "not found in map");
}

#[test]
fn raw_segments_pass_through() {
    let t = tpl(vec![raw("lorem "), raw(""), raw("{{ ipsum }} "), raw("dolor")]);
    let r = template(&NoFilters, &t, Value::Null);
    assert_eq!(r.unwrap(), "lorem {{ ipsum }} dolor");
}

#[test]
fn empty_template_renders_empty() {
    let t = Template { source: String::new(), scope: Scope::new() };
    assert_eq!(template(&NoFilters, &t, Value::Null).unwrap(), "");
}

#[test]
fn scalars_render_as_text() {
    let t = tpl(vec![
        inline(var(&[("a", 0)])),
        raw("|"),
        inline(var(&[("b", 0)])),
        raw("|"),
        inline(var(&[("c", 0)])),
        raw("|"),
        inline(var(&[("d", 0)])),
        raw("|"),
        inline(var(&[("e", 0)])),
        raw("|"),
        inline(var(&[("f", 0)])),
    ]);
    let g = dict(vec![
        ("a", Value::Integer(-42)),
        ("b", Value::Integer(0)),
        ("c", Value::Bool(true)),
        ("d", Value::Bool(false)),
        ("e", s("plain text")),
        ("f", Value::Null),
    ]);
    assert_eq!(template(&NoFilters, &t, g).unwrap(), "-42|0|true|false|plain text|");
}

#[test]
fn integer_text_extremes() {
    assert_eq!(integer_text(i64::MIN), "-9223372036854775808");
    assert_eq!(integer_text(i64::MAX), "9223372036854775807");
    assert_eq!(integer_text(7), "7");
    assert_eq!(integer_text(-10), "-10");
    assert_eq!(integer_text(1200), "1200");
}

#[test]
fn list_inline_is_type_error_at_expr_span() {
    let t = tpl(vec![raw("before "), inline(var(&[("xs", 10)])), raw(" after"), inline(var(&[("nope", 30)]))]);
    let err = template(&NoFilters, &t, dict(vec![("xs", Value::List(vec![]))])).unwrap_err();
    assert_eq!(err, Error { kind: ErrorKind::ExpectedRenderable(Kind::List), span: sp(10, 12) });
    assert_eq!(err.message(), "expected renderable value, but expression evaluated to list");
}

#[test]
fn map_inline_is_type_error_at_expr_span() {
    let t = tpl(vec![inline(var(&[("m", 4)]))]);
    let err = template(&NoFilters, &t, dict(vec![("m", dict(vec![]))])).unwrap_err();
    assert_eq!(err, Error { kind: ErrorKind::ExpectedRenderable(Kind::Dict), span: sp(4, 5) });
    assert_eq!(err.message(), "expected renderable value, but expression evaluated to map");
}

fn if_else(cond: Expr, then_text: &str, else_text: Option<&str>) -> Stmt {
    Stmt::IfElse(IfElse {
        cond,
        then_branch: Scope { stmts: vec![raw(then_text)] },
        else_branch: else_text.map(|e| Scope { stmts: vec![raw(e)] }),
    })
}

#[test]
fn conditional_runs_one_branch() {
    let t = tpl(vec![if_else(var(&[("c", 0)]), "yes", Some("no")), raw(".")]);
    assert_eq!(template(&NoFilters, &t, dict(vec![("c", Value::Bool(true))])).unwrap(), "yes.");
    assert_eq!(template(&NoFilters, &t, dict(vec![("c", Value::Bool(false))])).unwrap(), "no.");
    let t2 = tpl(vec![if_else(var(&[("c", 0)]), "yes", None), raw(".")]);
    assert_eq!(template(&NoFilters, &t2, dict(vec![("c", Value::Bool(false))])).unwrap(), ".");
}

#[test]
fn non_bool_condition_is_type_error() {
    let t = tpl(vec![if_else(var(&[("c", 6)]), "yes", None)]);
    let err = template(&NoFilters, &t, dict(vec![("c", Value::Integer(1))])).unwrap_err();
    assert_eq!(err, Error { kind: ErrorKind::ExpectedBool(Kind::Integer), span: sp(6, 7) });
    assert_eq!(err.message(), "expected bool, but expression evaluated to integer");
}

fn for_loop(vars: LoopVars, iterable: Expr, body: Vec<Stmt>) -> Stmt {
    Stmt::ForLoop(ForLoop { vars, iterable, body: Scope { stmts: body } })
}

fn kv(k: &str, v: &str, start: usize) -> LoopVars {
    let key = ident(k, start);
    let value = ident(v, start + k.len() + 2);
    let span = sp(start, value.span.end);
    LoopVars::KeyValue(KeyValue { key, value, span })
}

#[test]
fn list_with_two_names_is_binding_error() {
    let t = tpl(vec![for_loop(kv("k", "v", 7), var(&[("xs", 15)]), vec![raw("body")])]);
    let g = dict(vec![("xs", Value::List(vec![Value::Integer(1)]))]);
    let err = template(&NoFilters, &t, g).unwrap_err();
    assert_eq!(err, Error { kind: ErrorKind::UnpackListIntoTwo, span: sp(7, 11) });
    assert_eq!(err.message(), "cannot unpack list item into two variables");
}

#[test]
fn map_with_one_name_is_binding_error() {
    let t = tpl(vec![for_loop(LoopVars::Item(ident("x", 7)), var(&[("m", 12)]), vec![raw("body")])]);
    let g = dict(vec![("m", dict(vec![("a", Value::Integer(1))]))]);
    let err = template(&NoFilters, &t, g).unwrap_err();
    assert_eq!(err, Error { kind: ErrorKind::UnpackMapIntoOne, span: sp(7, 8) });
    assert_eq!(err.message(), "cannot unpack map item into one variable");
}

#[test]
fn empty_list_with_two_names_renders_nothing() {
    let t = tpl(vec![for_loop(kv("k", "v", 7), var(&[("xs", 15)]), vec![raw("body")])]);
    let g = dict(vec![("xs", Value::List(vec![]))]);
    assert_eq!(template(&NoFilters, &t, g).unwrap(), "");
}

#[test]
fn map_loop_binds_key_and_value() {
    let body = vec![inline(var(&[("k", 0)])), raw("="), inline(var(&[("v", 0)])), raw(";")];
    let t = tpl(vec![for_loop(kv("k", "v", 0), var(&[("m", 0)]), body)]);
    let g = dict(vec![("m", dict(vec![("a", Value::Integer(1)), ("b", s("two"))]))]);
    assert_eq!(template(&NoFilters, &t, g).unwrap(), "a=1;b=two;");
}

#[test]
fn non_iterable_is_type_error() {
    let t = tpl(vec![for_loop(LoopVars::Item(ident("x", 7)), var(&[("n", 12)]), vec![])]);
    let err = template(&NoFilters, &t, dict(vec![("n", s("abc"))])).unwrap_err();
    assert_eq!(err, Error { kind: ErrorKind::ExpectedIterable(Kind::String), span: sp(12, 13) });
}

#[test]
fn inner_loop_sees_outer_binding() {
    let inner = for_loop(
        LoopVars::Item(ident("y", 0)),
        var(&[("ys", 0)]),
        vec![inline(var(&[("x", 0)])), inline(var(&[("y", 0)])), raw(" ")],
    );
    let outer = for_loop(LoopVars::Item(ident("x", 0)), var(&[("xs", 0)]), vec![inner]);
    let g = dict(vec![
        ("xs", Value::List(vec![s("a"), s("b")])),
        ("ys", Value::List(vec![Value::Integer(1), Value::Integer(2)])),
    ]);
    assert_eq!(template(&NoFilters, &t_of(outer), g).unwrap(), "a1 a2 b1 b2 ");
}

fn t_of(stmt: Stmt) -> Template {
    tpl(vec![stmt])
}

#[test]
fn unbound_in_all_frames_is_not_found_at_first_segment() {
    let body = vec![inline(var(&[("zz", 40), ("w", 43)]))];
    let t = t_of(for_loop(LoopVars::Item(ident("x", 7)), var(&[("xs", 12)]), body));
    let g = dict(vec![("xs", Value::List(vec![Value::Integer(1)]))]);
    let err = template(&NoFilters, &t, g).unwrap_err();
    assert_eq!(err, Error { kind: ErrorKind::NotFound, span: sp(40, 42) });
}

#[test]
fn later_segment_does_not_fall_back() {
    // the inner frame has `x`, but not `x.a`; the outer `x.a` is not consulted
    let body = vec![inline(var(&[("x", 20), ("a", 22)]))];
    let t = t_of(for_loop(LoopVars::Item(ident("x", 7)), var(&[("xs", 12)]), body));
    let g = dict(vec![
        ("xs", Value::List(vec![dict(vec![("b", Value::Integer(1))])])),
        ("x", dict(vec![("a", Value::Integer(9))])),
    ]);
    let err = template(&NoFilters, &t, g).unwrap_err();
    assert_eq!(err, Error { kind: ErrorKind::NotFound, span: sp(22, 23) });
}

#[test]
fn list_indexing() {
    let g = dict(vec![("xs", Value::List(vec![s("zero"), s("one")]))]);
    let t = t_of(inline(var(&[("xs", 0), ("1", 3)])));
    assert_eq!(template(&NoFilters, &t, g).unwrap(), "one");

    let g = dict(vec![("xs", Value::List(vec![s("zero")]))]);
    let t = t_of(inline(var(&[("xs", 0), ("one", 3)])));
    let err = template(&NoFilters, &t, g).unwrap_err();
    assert_eq!(err, Error { kind: ErrorKind::ListIndexNotNumber, span: sp(3, 6) });
    assert_eq!(err.message(), "cannot index list with string");

    let g = dict(vec![("xs", Value::List(vec![s("zero")]))]);
    let t = t_of(inline(var(&[("xs", 0), ("5", 3)])));
    let err = template(&NoFilters, &t, g).unwrap_err();
    assert_eq!(err, Error { kind: ErrorKind::IndexOutOfBounds, span: sp(3, 4) });

    let g = dict(vec![("xs", Value::List(vec![s("zero")]))]);
    let t = t_of(inline(var(&[("xs", 0), ("99999999999999999999", 3)])));
    let err = template(&NoFilters, &t, g).unwrap_err();
    assert_eq!(err, Error { kind: ErrorKind::ListIndexNotNumber, span: sp(3, 23) });
}

#[test]
fn list_index_with_plus_sign() {
    let g = dict(vec![("xs", Value::List(vec![Value::Null, s("one")]))]);
    let t = t_of(inline(var(&[("xs", 0), ("+1", 3)])));
    assert_eq!(template(&NoFilters, &t, g).unwrap(), "one");

    let g = dict(vec![("xs", Value::List(vec![Value::Null]))]);
    let t = t_of(inline(var(&[("xs", 0), ("+0", 3)])));
    assert_eq!(template(&NoFilters, &t, g).unwrap(), "");

    let g = dict(vec![("xs", Value::List(vec![]))]);
    let t = t_of(inline(var(&[("xs", 0), ("+0", 3)])));
    let err = template(&NoFilters, &t, g).unwrap_err();
    assert_eq!(err, Error { kind: ErrorKind::IndexOutOfBounds, span: sp(3, 5) });
}

#[test]
fn malformed_list_indexes_are_not_numbers() {
    for bad in ["+", "-1", "++1", "1a", " 1"] {
        let g = dict(vec![("xs", Value::List(vec![Value::Null, Value::Null]))]);
        let t = t_of(inline(var(&[("xs", 0), (bad, 3)])));
        let err = template(&NoFilters, &t, g).unwrap_err();
        assert_eq!(err.kind, ErrorKind::ListIndexNotNumber);
    }
}

#[test]
fn largest_index_still_parses() {
    let g = dict(vec![("xs", Value::List(vec![]))]);
    let max = usize::MAX.to_string();
    let t = t_of(inline(var(&[("xs", 0), (max.as_str(), 3)])));
    let err = template(&NoFilters, &t, g).unwrap_err();
    assert_eq!(err.kind, ErrorKind::IndexOutOfBounds);
}

#[test]
fn repeated_key_finds_first_entry() {
    let g = dict(vec![("k", s("first")), ("k", s("second"))]);
    let t = t_of(inline(var(&[("k", 0)])));
    assert_eq!(template(&NoFilters, &t, g).unwrap(), "first");
}

#[test]
fn nested_list_inline_is_type_error_at_expr_span() {
    let inner = if_else(var(&[("c", 0)]), "", None);
    let body = vec![
        raw("a"),
        Stmt::IfElse(IfElse {
            cond: var(&[("c", 0)]),
            then_branch: Scope { stmts: vec![raw("b"), inline(var(&[("x", 30)])), raw("c")] },
            else_branch: None,
        }),
        inner,
    ];
    let t = tpl(vec![raw("start"), for_loop(LoopVars::Item(ident("x", 7)), var(&[("xs", 12)]), body)]);
    let g = dict(vec![
        ("c", Value::Bool(true)),
        ("xs", Value::List(vec![Value::List(vec![Value::Integer(1)])])),
    ]);
    let err = template(&NoFilters, &t, g).unwrap_err();
    assert_eq!(err, Error { kind: ErrorKind::ExpectedRenderable(Kind::List), span: sp(30, 31) });
}

#[test]
fn scalar_cannot_be_indexed() {
    let g = dict(vec![("n", Value::Integer(3))]);
    let t = t_of(inline(var(&[("n", 0), ("a", 2)])));
    let err = template(&NoFilters, &t, g).unwrap_err();
    assert_eq!(err, Error { kind: ErrorKind::CannotIndexInto(Kind::Integer), span: sp(2, 3) });
    assert_eq!(err.message(), "cannot index into integer");
}

#[test]
fn filters_chain_left_to_right() {
    // {{ name | upper | shout }}
    let e = call("shout", 20, call("upper", 12, var(&[("name", 3)])));
    let t = t_of(inline(e));
    let r = template(&TestFilters, &t, dict(vec![("name", s("bo"))]));
    assert_eq!(r.unwrap(), "BO!");
}

#[test]
fn filter_result_feeds_next_filter() {
    // {{ xs | len }}
    let t = t_of(inline(call("len", 8, var(&[("xs", 3)]))));
    let r = template(&TestFilters, &t, dict(vec![("xs", Value::List(vec![Value::Null, Value::Null]))]));
    assert_eq!(r.unwrap(), "2");
}

#[test]
fn unknown_filter_is_error_at_its_name() {
    let e = call("nope", 20, call("upper", 12, var(&[("name", 3)])));
    let err = template(&TestFilters, &t_of(inline(e)), dict(vec![("name", s("bo"))])).unwrap_err();
    assert_eq!(err, Error { kind: ErrorKind::UnknownFilter, span: sp(20, 24) });
    assert_eq!(err.message(), "unknown filter function");
}

#[test]
fn receiver_is_evaluated_before_filter_lookup() {
    let e = call("nope", 20, call("upper", 12, var(&[("missing", 3)])));
    let err = template(&TestFilters, &t_of(inline(e)), dict(vec![])).unwrap_err();
    assert_eq!(err, Error { kind: ErrorKind::NotFound, span: sp(3, 10) });

    let e = call("upper", 20, call("nope", 12, var(&[("name", 3)])));
    let err = template(&TestFilters, &t_of(inline(e)), dict(vec![("name", s("bo"))])).unwrap_err();
    assert_eq!(err, Error { kind: ErrorKind::UnknownFilter, span: sp(12, 16) });
}

#[test]
fn literal_expression_renders_its_value() {
    let lit = Expr::Base(BaseExpr::Literal(Literal { value: Value::Integer(5), span: sp(3, 4) }));
    assert_eq!(lit.span(), sp(3, 4));
    let t = t_of(inline(lit));
    assert_eq!(template(&NoFilters, &t, Value::Null).unwrap(), "5");
}

#[test]
fn deep_nesting_does_not_overflow_the_stack() {
    let depth = 100_000;
    let mut scope = Scope { stmts: vec![raw("x")] };
    for _ in 0..depth {
        let inner = scope;
        scope = Scope {
            stmts: vec![Stmt::IfElse(IfElse {
                cond: Expr::Base(BaseExpr::Literal(Literal { value: Value::Bool(true), span: sp(0, 0) })),
                then_branch: inner,
                else_branch: None,
            })],
        };
    }
    let t = Template { source: String::new(), scope };
    let r = template(&NoFilters, &t, Value::Null);
    assert_eq!(r.unwrap(), "x");
    // dropping the tree itself would recurse once per level
    std::mem::forget(t);
}

#[test]
fn deep_loop_nesting_does_not_overflow_the_stack() {
    // each lookup of `one` searches every enclosing frame, so the work grows
    // with the square of the depth
    let depth = 5_000;
    let mut scope = Scope { stmts: vec![raw("y")] };
    for _ in 0..depth {
        let inner = scope;
        scope = Scope {
            stmts: vec![for_loop(LoopVars::Item(ident("i", 0)), var(&[("one", 0)]), inner.stmts)],
        };
    }
    let t = Template { source: String::new(), scope };
    let g = dict(vec![("one", Value::List(vec![Value::Null]))]);
    let r = template(&NoFilters, &t, g);
    assert_eq!(r.unwrap(), "y");
    std::mem::forget(t);
}
