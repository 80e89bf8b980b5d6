//! Renders a template with an explicit control stack.
//!
//! The meaning of a template is given by the recursive spec functions
//! `run_block`, `run_stmt` and `run_loop`; `template` computes it without
//! recursion, keeping a stack of frames (a block with its remaining
//! statements, or a loop with its remaining elements) and a stack of scopes.
use vstd::prelude::*;
use crate::ast::{ForLoop, LoopVars, Scope, Stmt, Template};
use crate::error::{Error, ErrorKind};
use crate::eval::{eval, eval_spec, kind_of, models, result_model, err_at};
use crate::filters::Filters;
use crate::value::{Data, Value};

verus! {

broadcast use vstd::std_specs::vec::axiom_vec_index_decreases;

/// Output followed by more output: the first error wins.
pub open spec fn join_out(a: Result<Seq<char>, Error>, b: Result<Seq<char>, Error>) -> Result<
    Seq<char>,
    Error,
> {
    match a {
        Err(e) => Err(e),
        Ok(x) => match b {
            Err(e) => Err(e),
            Ok(y) => Ok(x + y),
        },
    }
}

pub open spec fn digit_char(d: nat) -> char {
    ('0' as nat + d) as char
}

/// The decimal digits of a natural number.
pub open spec fn nat_text(n: nat) -> Seq<char>
    decreases n,
{
    if n < 10 {
        seq![digit_char(n)]
    } else {
        nat_text(n / 10).push(digit_char(n % 10))
    }
}

/// The decimal form of an integer, with a leading `-` when negative.
pub open spec fn int_text(n: int) -> Seq<char> {
    if n < 0 {
        seq!['-'] + nat_text((-n) as nat)
    } else {
        nat_text(n as nat)
    }
}

/// The text of a renderable value; `None` for a list or a map.
pub open spec fn text_of(d: Data) -> Option<Seq<char>> {
    match d {
        Data::Null => Some(Seq::empty()),
        Data::Bool(b) => Some(if b { "true"@ } else { "false"@ }),
        Data::Int(n) => Some(int_text(n)),
        Data::Str(s) => Some(s),
        _ => None,
    }
}

/// How many elements a loop over `d` visits.
pub open spec fn item_count(d: Data) -> int {
    match d {
        Data::List(l) => l.len() as int,
        Data::Dict(m) => m.len() as int,
        _ => 0,
    }
}

/// The scope a loop body sees for element `pos` of `it`.
pub open spec fn bind_spec(vars: LoopVars, it: Data, pos: int) -> Result<Data, Error> {
    match (it, vars) {
        (Data::List(l), LoopVars::Item(x)) => Ok(Data::Dict(seq![(x.raw@, l[pos])])),
        (Data::List(_), LoopVars::KeyValue(kv)) => Err(err_at(ErrorKind::UnpackListIntoTwo, kv.span)),
        (Data::Dict(_), LoopVars::Item(x)) => Err(err_at(ErrorKind::UnpackMapIntoOne, x.span)),
        (Data::Dict(m), LoopVars::KeyValue(kv)) => Ok(
            Data::Dict(seq![(kv.key.raw@, Data::Str(m[pos].0)), (kv.value.raw@, m[pos].1)]),
        ),
        _ => Err(err_at(ErrorKind::ExpectedIterable(kind_of(it)), vars_span(vars))),
    }
}

pub open spec fn vars_span(vars: LoopVars) -> crate::error::Span {
    match vars {
        LoopVars::Item(x) => x.span,
        LoopVars::KeyValue(kv) => kv.span,
    }
}

/// The output of the statements of `scope` from position `pos` on.
pub open spec fn run_block<F: Filters>(f: &F, scope: Scope, pos: int, locals: Seq<Data>) -> Result<
    Seq<char>,
    Error,
>
    decreases scope, scope.stmts@.len() - pos,
{
    if pos < 0 || pos >= scope.stmts@.len() {
        Ok(Seq::empty())
    } else {
        join_out(run_stmt(f, scope.stmts[pos], locals), run_block(f, scope, pos + 1, locals))
    }
}

/// The output of one statement.
pub open spec fn run_stmt<F: Filters>(f: &F, stmt: Stmt, locals: Seq<Data>) -> Result<
    Seq<char>,
    Error,
>
    decreases stmt, 0int,
{
    match stmt {
        Stmt::Raw(t) => Ok(t@),
        Stmt::InlineExpr(ie) => match eval_spec(f, ie.expr, locals) {
            Err(e) => Err(e),
            Ok(v) => match text_of(v) {
                Some(t) => Ok(t),
                None => Err(err_at(ErrorKind::ExpectedRenderable(kind_of(v)), ie.expr.span_spec())),
            },
        },
        Stmt::IfElse(ie) => match eval_spec(f, ie.cond, locals) {
            Err(e) => Err(e),
            Ok(Data::Bool(true)) => run_block(f, ie.then_branch, 0, locals),
            Ok(Data::Bool(false)) => match ie.else_branch {
                Some(e) => run_block(f, e, 0, locals),
                None => Ok(Seq::empty()),
            },
            Ok(v) => Err(err_at(ErrorKind::ExpectedBool(kind_of(v)), ie.cond.span_spec())),
        },
        Stmt::ForLoop(fl) => match eval_spec(f, fl.iterable, locals) {
            Err(e) => Err(e),
            Ok(v) => if v is List || v is Dict {
                run_loop(f, fl, v, 0, locals)
            } else {
                Err(err_at(ErrorKind::ExpectedIterable(kind_of(v)), fl.iterable.span_spec()))
            },
        },
    }
}

/// The output of a loop's body for the elements of `it` from position `pos` on.
pub open spec fn run_loop<F: Filters>(
    f: &F,
    fl: ForLoop,
    it: Data,
    pos: int,
    outer: Seq<Data>,
) -> Result<Seq<char>, Error>
    decreases fl, item_count(it) - pos,
{
    if pos < 0 || pos >= item_count(it) {
        Ok(Seq::empty())
    } else {
        match bind_spec(fl.vars, it, pos) {
            Err(e) => Err(e),
            Ok(b) => join_out(run_block(f, fl.body, 0, outer.push(b)), run_loop(f, fl, it, pos + 1, outer)),
        }
    }
}

/// What rendering `t` against `globals` gives.
pub open spec fn render_spec<F: Filters>(f: &F, t: Template, globals: Data) -> Result<Seq<char>, Error> {
    run_block(f, t.scope, 0, seq![globals])
}

/// The number of machine steps that `run_block` takes: the measure that
/// bounds the rendering loop.
pub open spec fn steps_block<F: Filters>(f: &F, scope: Scope, pos: int, locals: Seq<Data>) -> nat
    decreases scope, scope.stmts@.len() - pos,
{
    if pos < 0 || pos >= scope.stmts@.len() {
        1
    } else {
        steps_stmt(f, scope.stmts[pos], locals) + steps_block(f, scope, pos + 1, locals)
    }
}

pub open spec fn steps_stmt<F: Filters>(f: &F, stmt: Stmt, locals: Seq<Data>) -> nat
    decreases stmt, 0int,
{
    match stmt {
        Stmt::IfElse(ie) => 1 + match eval_spec(f, ie.cond, locals) {
            Ok(Data::Bool(true)) => steps_block(f, ie.then_branch, 0, locals),
            Ok(Data::Bool(false)) => match ie.else_branch {
                Some(e) => steps_block(f, e, 0, locals),
                None => 0,
            },
            _ => 0,
        },
        Stmt::ForLoop(fl) => 1 + match eval_spec(f, fl.iterable, locals) {
            Ok(v) => if v is List || v is Dict {
                steps_loop(f, fl, v, 0, locals)
            } else {
                0
            },
            _ => 0,
        },
        _ => 1,
    }
}

pub open spec fn steps_loop<F: Filters>(f: &F, fl: ForLoop, it: Data, pos: int, outer: Seq<Data>) -> nat
    decreases fl, item_count(it) - pos,
{
    if pos < 0 || pos >= item_count(it) {
        1
    } else {
        1 + match bind_spec(fl.vars, it, pos) {
            Ok(b) => steps_block(f, fl.body, 0, outer.push(b)),
            Err(_) => 0,
        } + steps_loop(f, fl, it, pos + 1, outer)
    }
}

/// A frame of the control stack.
pub enum Frame<'a> {
    /// The statements of `scope` from `pos` on are still to run.
    Block { scope: &'a Scope, pos: usize },
    /// The elements of `iterable` from `pos` on are still to visit.
    Loop { fl: &'a ForLoop, iterable: Value, pos: usize },
}

impl<'a> Frame<'a> {
    /// A frame that runs all the statements of `scope`.
    pub fn new(scope: &'a Scope) -> (r: Self)
        ensures
            r == (Frame::Block { scope, pos: 0 }),
    {
        Frame::Block { scope, pos: 0 }
    }
}

pub open spec fn frame_out<'a, F: Filters>(f: &F, fr: Frame<'a>, locals: Seq<Data>) -> Result<Seq<char>, Error> {
    match fr {
        Frame::Block { scope, pos } => run_block(f, *scope, pos as int, locals),
        Frame::Loop { fl, iterable, pos } => run_loop(f, *fl, iterable.model(), pos as int, locals),
    }
}

pub open spec fn frame_steps<'a, F: Filters>(f: &F, fr: Frame<'a>, locals: Seq<Data>) -> nat {
    match fr {
        Frame::Block { scope, pos } => steps_block(f, *scope, pos as int, locals),
        Frame::Loop { fl, iterable, pos } => steps_loop(f, *fl, iterable.model(), pos as int, locals),
    }
}

/// The output still owed by the lowest `n` frames, the topmost first; frame
/// `k` sees the lowest `ds[k]` scopes.
pub open spec fn pending_out<'a, F: Filters>(
    f: &F,
    st: Seq<Frame<'a>>,
    ds: Seq<int>,
    lv: Seq<Data>,
    n: int,
) -> Result<Seq<char>, Error>
    decreases n,
{
    if n <= 0 {
        Ok(Seq::empty())
    } else {
        join_out(frame_out(f, st[n - 1], lv.take(ds[n - 1])), pending_out(f, st, ds, lv, n - 1))
    }
}

pub open spec fn pending_steps<'a, F: Filters>(
    f: &F,
    st: Seq<Frame<'a>>,
    ds: Seq<int>,
    lv: Seq<Data>,
    n: int,
) -> nat
    decreases n,
{
    if n <= 0 {
        0
    } else {
        frame_steps(f, st[n - 1], lv.take(ds[n - 1])) + pending_steps(f, st, ds, lv, n - 1)
    }
}

proof fn lemma_pending_unfold<'a, F: Filters>(f: &F, st: Seq<Frame<'a>>, ds: Seq<int>, lv: Seq<Data>, n: int)
    requires
        n > 0,
    ensures
        pending_out(f, st, ds, lv, n) == join_out(frame_out(f, st[n - 1], lv.take(ds[n - 1])), pending_out(f, st, ds, lv, n - 1)),
        pending_steps(f, st, ds, lv, n) == frame_steps(f, st[n - 1], lv.take(ds[n - 1])) + pending_steps(f, st, ds, lv, n - 1),
{
}

proof fn lemma_join_assoc(a: Result<Seq<char>, Error>, b: Result<Seq<char>, Error>, c: Result<Seq<char>, Error>)
    ensures
        join_out(join_out(a, b), c) == join_out(a, join_out(b, c)),
{
    if a is Ok && b is Ok && c is Ok {
        assert(a->Ok_0 + b->Ok_0 + c->Ok_0 =~= a->Ok_0 + (b->Ok_0 + c->Ok_0));
    }
}

proof fn lemma_join_empty(a: Result<Seq<char>, Error>)
    ensures
        join_out(Ok(Seq::empty()), a) == a,
        join_out(a, Ok(Seq::empty())) == a,
{
    if a is Ok {
        assert(Seq::<char>::empty() + a->Ok_0 =~= a->Ok_0);
        assert(a->Ok_0 + Seq::<char>::empty() =~= a->Ok_0);
    }
}

/// Frames below the top are unaffected by a change that keeps them and the
/// scopes they see.
proof fn lemma_pending_same<'a, F: Filters>(
    f: &F,
    st1: Seq<Frame<'a>>,
    st2: Seq<Frame<'a>>,
    ds1: Seq<int>,
    ds2: Seq<int>,
    lv1: Seq<Data>,
    lv2: Seq<Data>,
    m: int,
)
    requires
        0 <= m <= st1.len(),
        m <= st2.len(),
        m <= ds1.len(),
        m <= ds2.len(),
        forall|k: int| 0 <= k < m ==> st1[k] == st2[k] && ds1[k] == ds2[k] && lv1.take(ds1[k]) == lv2.take(ds1[k]),
    ensures
        pending_out(f, st1, ds1, lv1, m) == pending_out(f, st2, ds2, lv2, m),
        pending_steps(f, st1, ds1, lv1, m) == pending_steps(f, st2, ds2, lv2, m),
    decreases m,
{
    if m > 0 {
        lemma_pending_same(f, st1, st2, ds1, ds2, lv1, lv2, m - 1);
    }
}

fn digit_str(d: u64) -> (r: &'static str)
    requires
        d < 10,
    ensures
        r@ == seq![digit_char(d as nat)],
{
    proof {
        reveal_strlit("0");
        reveal_strlit("1");
        reveal_strlit("2");
        reveal_strlit("3");
        reveal_strlit("4");
        reveal_strlit("5");
        reveal_strlit("6");
        reveal_strlit("7");
        reveal_strlit("8");
        reveal_strlit("9");
    }
    if d == 0 {
        "0"
    } else if d == 1 {
        "1"
    } else if d == 2 {
        "2"
    } else if d == 3 {
        "3"
    } else if d == 4 {
        "4"
    } else if d == 5 {
        "5"
    } else if d == 6 {
        "6"
    } else if d == 7 {
        "7"
    } else if d == 8 {
        "8"
    } else {
        "9"
    }
}

fn nat_string(n: u64) -> (r: String)
    ensures
        r@ == nat_text(n as nat),
    decreases n,
{
    if n < 10 {
        String::from_str(digit_str(n))
    } else {
        nat_string(n / 10).concat(digit_str(n % 10))
    }
}

/// The decimal form of an integer.
pub fn integer_text(n: i64) -> (r: String)
    ensures
        r@ == int_text(n as int),
{
    proof {
        reveal_strlit("-");
    }
    if n < 0 {
        let m: u64 = ((-(n + 1)) as u64) + 1;
        String::from_str("-").concat(nat_string(m).as_str())
    } else {
        nat_string(n as u64)
    }
}

/// The text of a renderable value; `None` for a list or a map.
pub fn text(v: &Value) -> (r: Option<String>)
    ensures
        match r {
            Some(s) => text_of(v.model()) == Some(s@),
            None => text_of(v.model()) is None,
        },
{
    proof {
        reveal_strlit("true");
        reveal_strlit("false");
    }
    match v {
        Value::Null => Some(String::new()),
        Value::Bool(b) => Some(String::from_str(if *b { "true" } else { "false" })),
        Value::Integer(n) => Some(integer_text(*n)),
        Value::String(s) => Some(s.clone()),
        _ => None,
    }
}

/// The scope a loop body sees for element `pos` of `it`.
fn bind(vars: &LoopVars, it: &Value, pos: usize) -> (r: Result<Value, Error>)
    requires
        it.model() is List || it.model() is Dict,
        pos < item_count(it.model()),
    ensures
        result_model(r) == bind_spec(*vars, it.model(), pos as int),
{
    match (it, vars) {
        (Value::List(l), LoopVars::Item(x)) => {
            let r = Value::Dict(vec![(x.raw.clone(), l[pos].deep_clone())]);
            assert(r.model()->Dict_0 =~= seq![(x.raw@, it.model()->List_0[pos as int])]);
            Ok(r)
        },
        (Value::List(_), LoopVars::KeyValue(kv)) => Err(Error { kind: ErrorKind::UnpackListIntoTwo, span: kv.span }),
        (Value::Dict(_), LoopVars::Item(x)) => Err(Error { kind: ErrorKind::UnpackMapIntoOne, span: x.span }),
        (Value::Dict(m), LoopVars::KeyValue(kv)) => {
            let k = Value::String(m[pos].0.clone());
            assert(k.model() == Data::Str(m@[pos as int].0@));
            let r = Value::Dict(vec![
                (kv.key.raw.clone(), k),
                (kv.value.raw.clone(), m[pos].1.deep_clone()),
            ]);
            assert(r.model()->Dict_0 =~= seq![(kv.key.raw@, Data::Str(it.model()->Dict_0[pos as int].0)), (kv.value.raw@, it.model()->Dict_0[pos as int].1)]);
            Ok(r)
        },
        _ => {
            assert(false);
            Err(Error { kind: ErrorKind::UnpackMapIntoOne, span: vars.span() })
        },
    }
}

impl LoopVars {
    /// The source range of the binding.
    pub fn span(&self) -> (r: crate::error::Span)
        ensures
            r == vars_span(*self),
    {
        match self {
            LoopVars::Item(x) => x.span,
            LoopVars::KeyValue(kv) => kv.span,
        }
    }
}

/// The output of rendering `tpl` against `globals`: the statements run
/// in order, the first error ends the render and no partial output is kept.
/// Nesting of conditionals and loops is held on a heap-allocated stack, not
/// on the native one.
#[verifier::rlimit(50)]
pub fn template<F: Filters>(filters: &F, tpl: &Template, globals: Value) -> (r: Result<String, Error>)
    ensures
        match r {
            Ok(s) => render_spec(filters, *tpl, globals.model()) == Ok::<Seq<char>, Error>(s@),
            Err(e) => render_spec(filters, *tpl, globals.model()) == Err::<Seq<char>, Error>(e),
        },
{
    let ghost g = globals.model();
    let ghost total = render_spec(filters, *tpl, g);
    let mut buf = String::new();
    let mut stack: Vec<Frame> = Vec::new();
    stack.push(Frame::new(&tpl.scope));
    let mut locals: Vec<Value> = Vec::new();
    locals.push(globals);
    // ds[k] is how many scopes frame k sees; a loop frame also owns the
    // scope just above those, which it overwrites for each element.
    let ghost mut ds: Seq<int> = seq![1int];
    proof {
        assert(models(locals@).take(1) =~= seq![g]);
        assert(buf@ =~= Seq::<char>::empty());
        assert(stack@[0] == Frame::Block { scope: &tpl.scope, pos: 0 });
        assert(ds[0] == 1);
        assert(frame_out(filters, stack@[0], models(locals@).take(1)) == run_block(filters, tpl.scope, 0, seq![g]));
        assert(pending_out(filters, stack@, ds, models(locals@), 0) == Ok::<Seq<char>, Error>(Seq::<char>::empty()));
        assert(pending_out(filters, stack@, ds, models(locals@), 1) == join_out(run_block(filters, tpl.scope, 0, seq![g]), Ok(Seq::<char>::empty())));
        lemma_join_empty(total);
        assert(Seq::<char>::empty() + Seq::<char>::empty() =~= Seq::<char>::empty());
    }
    while stack.len() > 0
        invariant
            total == render_spec(filters, *tpl, globals.model()),
            stack@.len() == ds.len(),
            locals@.len() >= 1,
            forall|k: int| 0 <= k < ds.len() ==> 1 <= #[trigger] ds[k] <= locals@.len(),
            forall|k: int, j: int| 0 <= k <= j < ds.len() ==> ds[k] <= ds[j],
            forall|k: int| 0 <= k < ds.len() - 1 ==> #[trigger] ds[k + 1] == if stack@[k] is Loop {
                ds[k] + 1
            } else {
                ds[k]
            },
            ds.len() > 0 && stack@.last() is Block ==> ds.last() == locals@.len(),
            ds.len() > 0 && stack@.last() is Loop ==> ds.last() + 1 == locals@.len(),
            join_out(Ok(buf@), pending_out(filters, stack@, ds, models(locals@), stack@.len() as int)) == total,
        decreases pending_steps(filters, stack@, ds, models(locals@), stack@.len() as int),
    {
        let ghost st0 = stack@;
        let ghost ds0 = ds;
        let ghost lv0 = models(locals@);
        let ghost n = stack@.len() as int;
        let ghost p0 = pending_out(filters, st0, ds0, lv0, n - 1);
        let ghost s0 = pending_steps(filters, st0, ds0, lv0, n - 1);
        // the top frame is taken off and its successors pushed back
        let top = stack.pop().unwrap();
        proof {
            assert(stack@ =~= st0.take(n - 1));
            assert(top == st0[n - 1]);
            if n >= 2 {
                let k = n - 2;
                assert(ds0[k + 1] == if st0[k] is Loop { ds0[k] + 1 } else { ds0[k] });
            }
            assert(pending_out(filters, st0, ds0, lv0, n) == join_out(frame_out(filters, top, lv0.take(ds0[n - 1])), p0));
            assert(pending_steps(filters, st0, ds0, lv0, n) == frame_steps(filters, top, lv0.take(ds0[n - 1])) + s0);
        }
        match top {
            Frame::Block { scope, pos } => {
                let ghost here = lv0.take(ds0[n - 1]);
                proof {
                    assert(here =~= lv0);
                }
                if pos >= scope.stmts.len() {
                    proof {
                        ds = ds0.take(n - 1);
                        lemma_pending_same(filters, stack@, st0, ds, ds0, models(locals@), lv0, n - 1);
                        lemma_join_empty(p0);
                        assert(frame_out(filters, top, here) == Ok::<Seq<char>, Error>(Seq::empty()));
                        assert(frame_steps(filters, top, here) == 1);
                    }
                } else {
                    let stmt = &scope.stmts[pos];
                    let ghost rest = run_block(filters, *scope, pos + 1, lv0);
                    assert(frame_out(filters, st0[n - 1], here) == join_out(run_stmt(filters, *stmt, lv0), rest));
                    assert(frame_steps(filters, st0[n - 1], here) == steps_stmt(filters, *stmt, lv0) + steps_block(filters, *scope, pos + 1, lv0));
                    match stmt {
                        Stmt::Raw(t) => {
                            let ghost b0 = buf@;
                            buf.append(t.as_str());
                            stack.push(Frame::Block { scope, pos: pos + 1 });
                            proof {
                                lemma_pending_same(filters, stack@, st0, ds, ds0, models(locals@), lv0, n - 1);
                                lemma_join_assoc(Ok(t@), rest, p0);
                                lemma_join_assoc(Ok(b0), Ok(t@), join_out(rest, p0));
                                assert(pending_out(filters, stack@, ds, lv0, n) == join_out(rest, p0));
                                assert(steps_stmt(filters, *stmt, lv0) == 1);
                                assert(pending_steps(filters, stack@, ds, lv0, n) == steps_block(filters, *scope, pos + 1, lv0) + s0);
                            }
                        },
                        Stmt::InlineExpr(ie) => {
                            let v = match eval(filters, &locals, &ie.expr) {
                                Ok(v) => v,
                                Err(e) => {
                                    return Err(e);
                                },
                            };
                            let t = match text(&v) {
                                Some(t) => t,
                                None => {
                                    return Err(Error { kind: ErrorKind::ExpectedRenderable(v.kind()), span: ie.expr.span() });
                                },
                            };
                            let ghost b0 = buf@;
                            buf.append(t.as_str());
                            stack.push(Frame::Block { scope, pos: pos + 1 });
                            proof {
                                lemma_pending_same(filters, stack@, st0, ds, ds0, models(locals@), lv0, n - 1);
                                lemma_join_assoc(Ok(t@), rest, p0);
                                lemma_join_assoc(Ok(b0), Ok(t@), join_out(rest, p0));
                                assert(run_stmt(filters, *stmt, lv0) == Ok::<Seq<char>, Error>(t@));
                                assert(pending_out(filters, stack@, ds, lv0, n) == join_out(rest, p0));
                                assert(steps_stmt(filters, *stmt, lv0) == 1);
                                assert(pending_steps(filters, stack@, ds, lv0, n) == steps_block(filters, *scope, pos + 1, lv0) + s0);
                            }
                        },
                        Stmt::IfElse(ie) => {
                            let c = match eval(filters, &locals, &ie.cond) {
                                Ok(Value::Bool(c)) => c,
                                Ok(v) => {
                                    return Err(Error { kind: ErrorKind::ExpectedBool(v.kind()), span: ie.cond.span() });
                                },
                                Err(e) => {
                                    return Err(e);
                                },
                            };
                            stack.push(Frame::Block { scope, pos: pos + 1 });
                            if c {
                                stack.push(Frame::new(&ie.then_branch));
                                proof {
                                    ds = ds0.push(ds0[n - 1]);
                                    lemma_pending_same(filters, stack@, st0, ds, ds0, models(locals@), lv0, n - 1);
                                    lemma_join_assoc(run_block(filters, ie.then_branch, 0, lv0), rest, p0);
                                    assert(run_stmt(filters, *stmt, lv0) == run_block(filters, ie.then_branch, 0, lv0));
                                    assert(steps_stmt(filters, *stmt, lv0) == 1 + steps_block(filters, ie.then_branch, 0, lv0));
                                    lemma_pending_unfold(filters, stack@, ds, lv0, n + 1);
                                    lemma_pending_unfold(filters, stack@, ds, lv0, n);
                                    assert(pending_out(filters, stack@, ds, lv0, n + 1) == join_out(run_block(filters, ie.then_branch, 0, lv0), join_out(rest, p0)));
                                    assert(pending_steps(filters, stack@, ds, lv0, n + 1) == steps_block(filters, ie.then_branch, 0, lv0) + (steps_block(filters, *scope, pos + 1, lv0) + s0));
                                }
                            } else {
                                match &ie.else_branch {
                                    Some(e) => {
                                        stack.push(Frame::new(e));
                                        proof {
                                            ds = ds0.push(ds0[n - 1]);
                                            lemma_pending_same(filters, stack@, st0, ds, ds0, models(locals@), lv0, n - 1);
                                            lemma_join_assoc(run_block(filters, *e, 0, lv0), rest, p0);
                                            assert(run_stmt(filters, *stmt, lv0) == run_block(filters, *e, 0, lv0));
                                            assert(steps_stmt(filters, *stmt, lv0) == 1 + steps_block(filters, *e, 0, lv0));
                                            lemma_pending_unfold(filters, stack@, ds, lv0, n + 1);
                                            lemma_pending_unfold(filters, stack@, ds, lv0, n);
                                            assert(pending_out(filters, stack@, ds, lv0, n + 1) == join_out(run_block(filters, *e, 0, lv0), join_out(rest, p0)));
                                            assert(pending_steps(filters, stack@, ds, lv0, n + 1) == steps_block(filters, *e, 0, lv0) + (steps_block(filters, *scope, pos + 1, lv0) + s0));
                                        }
                                    },
                                    None => {
                                        proof {
                                            lemma_pending_same(filters, stack@, st0, ds, ds0, models(locals@), lv0, n - 1);
                                            lemma_join_empty(rest);
                                            assert(run_stmt(filters, *stmt, lv0) == Ok::<Seq<char>, Error>(Seq::empty()));
                                            assert(steps_stmt(filters, *stmt, lv0) == 1);
                                            assert(pending_out(filters, stack@, ds, lv0, n) == join_out(rest, p0));
                                            assert(pending_steps(filters, stack@, ds, lv0, n) == steps_block(filters, *scope, pos + 1, lv0) + s0);
                                        }
                                    },
                                }
                            }
                        },
                        Stmt::ForLoop(fl) => {
                            let v = match eval(filters, &locals, &fl.iterable) {
                                Ok(v) => v,
                                Err(e) => {
                                    return Err(e);
                                },
                            };
                            let iterable = match &v {
                                Value::List(_) => true,
                                Value::Dict(_) => true,
                                _ => false,
                            };
                            if !iterable {
                                return Err(Error { kind: ErrorKind::ExpectedIterable(v.kind()), span: fl.iterable.span() });
                            }
                            let ghost vm = v.model();
                            stack.push(Frame::Block { scope, pos: pos + 1 });
                            locals.push(Value::Null);
                            stack.push(Frame::Loop { fl, iterable: v, pos: 0 });
                            proof {
                                let lv1 = models(locals@);
                                assert(lv1.take(ds0[n - 1]) =~= lv0);
                                assert forall|k: int| 0 <= k < n - 1 implies lv1.take(ds0[k]) == lv0.take(ds0[k]) by {
                                    assert(lv1.take(ds0[k]) =~= lv0.take(ds0[k]));
                                }
                                ds = ds0.push(ds0[n - 1]);
                                lemma_pending_same(filters, stack@, st0, ds, ds0, lv1, lv0, n - 1);
                                lemma_join_assoc(run_loop(filters, *fl, vm, 0, lv0), rest, p0);
                                assert(run_stmt(filters, *stmt, lv0) == run_loop(filters, *fl, vm, 0, lv0));
                                assert(steps_stmt(filters, *stmt, lv0) == 1 + steps_loop(filters, *fl, vm, 0, lv0));
                                lemma_pending_unfold(filters, stack@, ds, lv1, n + 1);
                                lemma_pending_unfold(filters, stack@, ds, lv1, n);
                                assert(pending_out(filters, stack@, ds, lv1, n + 1) == join_out(run_loop(filters, *fl, vm, 0, lv0), join_out(rest, p0)));
                                assert(pending_steps(filters, stack@, ds, lv1, n + 1) == steps_loop(filters, *fl, vm, 0, lv0) + (steps_block(filters, *scope, pos + 1, lv0) + s0));
                            }
                        },
                    }
                }
            },
            Frame::Loop { fl, iterable, pos } => {
                let ghost outer = lv0.take(ds0[n - 1]);
                let count = match &iterable {
                    Value::List(l) => l.len(),
                    Value::Dict(m) => m.len(),
                    _ => 0,
                };
                assert(count == item_count(iterable.model()));
                if pos >= count {
                    locals.pop();
                    proof {
                        let lv1 = models(locals@);
                        assert forall|k: int| 0 <= k < n - 1 implies lv1.take(ds0[k]) == lv0.take(ds0[k]) by {
                            assert(lv1.take(ds0[k]) =~= lv0.take(ds0[k]));
                        }
                        ds = ds0.take(n - 1);
                        lemma_pending_same(filters, stack@, st0, ds, ds0, lv1, lv0, n - 1);
                        lemma_join_empty(p0);
                        assert(frame_out(filters, top, outer) == Ok::<Seq<char>, Error>(Seq::empty()));
                        assert(frame_steps(filters, top, outer) == 1);
                    }
                } else {
                    let b = match bind(&fl.vars, &iterable, pos) {
                        Ok(b) => b,
                        Err(e) => {
                            assert(frame_out(filters, top, outer) == Err::<Seq<char>, Error>(e));
                            return Err(e);
                        },
                    };
                    let ghost bm = b.model();
                    locals.pop();
                    locals.push(b);
                    stack.push(Frame::Loop { fl, iterable, pos: pos + 1 });
                    stack.push(Frame::new(&fl.body));
                    proof {
                        let lv1 = models(locals@);
                        assert(lv1 =~= outer.push(bm));
                        assert(lv1.take(ds0[n - 1]) =~= outer);
                        assert(lv1.take(ds0[n - 1] + 1) =~= lv1);
                        assert forall|k: int| 0 <= k < n - 1 implies lv1.take(ds0[k]) == lv0.take(ds0[k]) by {
                            assert(lv1.take(ds0[k]) =~= lv0.take(ds0[k]));
                        }
                        ds = ds0.push(ds0[n - 1] + 1);
                        lemma_pending_same(filters, stack@, st0, ds, ds0, lv1, lv0, n - 1);
                        lemma_join_assoc(
                            run_block(filters, fl.body, 0, outer.push(bm)),
                            run_loop(filters, *fl, iterable.model(), pos + 1, outer),
                            p0,
                        );
                        assert(frame_out(filters, top, outer) == join_out(run_block(filters, fl.body, 0, outer.push(bm)), run_loop(filters, *fl, iterable.model(), pos + 1, outer)));
                        assert(frame_steps(filters, top, outer) == 1 + steps_block(filters, fl.body, 0, outer.push(bm)) + steps_loop(filters, *fl, iterable.model(), pos + 1, outer));
                        lemma_pending_unfold(filters, stack@, ds, lv1, n + 1);
                        lemma_pending_unfold(filters, stack@, ds, lv1, n);
                        assert(pending_out(filters, stack@, ds, lv1, n + 1) == join_out(run_block(filters, fl.body, 0, outer.push(bm)), join_out(run_loop(filters, *fl, iterable.model(), pos + 1, outer), p0)));
                    }
                }
            },
        }
    }
    proof {
        lemma_join_empty(Ok(buf@));
    }
    Ok(buf)
}

} // verus!
