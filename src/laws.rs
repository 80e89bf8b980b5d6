//! Properties of rendering that hold for every template and every input.
use vstd::prelude::*;
use crate::ast::{Call, Expr, ForLoop, Ident, IfElse, InlineExpr, Scope, Stmt, Template};
use crate::error::{Error, ErrorKind};
use crate::eval::{err_at, eval_spec, kind_of, lookup_spec, resolve_at, resolve_spec, walk_spec};
use crate::filters::Filters;
use crate::render::{bind_spec, item_count, render_spec, run_block, run_loop, run_stmt, text_of};
use crate::value::Data;

verus! {

/// The raw texts of `stmts` from position `pos` on, concatenated.
pub open spec fn raw_text(stmts: Seq<Stmt>, pos: int) -> Seq<char>
    decreases stmts.len() - pos,
{
    if pos < 0 || pos >= stmts.len() {
        Seq::empty()
    } else {
        match stmts[pos] {
            Stmt::Raw(t) => t@ + raw_text(stmts, pos + 1),
            _ => raw_text(stmts, pos + 1),
        }
    }
}

proof fn lemma_raw_block<F: Filters>(f: &F, scope: Scope, pos: int, locals: Seq<Data>)
    requires
        0 <= pos,
        forall|i: int| 0 <= i < scope.stmts@.len() ==> #[trigger] scope.stmts@[i] is Raw,
    ensures
        run_block(f, scope, pos, locals) == Ok::<Seq<char>, Error>(raw_text(scope.stmts@, pos)),
    decreases scope.stmts@.len() - pos,
{
    if pos < scope.stmts@.len() {
        lemma_raw_block(f, scope, pos + 1, locals);
        assert(scope.stmts@[pos] is Raw);
        let t = scope.stmts@[pos]->Raw_0;
        assert(scope.stmts[pos] == Stmt::Raw(t));
        assert(run_stmt(f, scope.stmts[pos], locals) == Ok::<Seq<char>, Error>(t@));
    }
}

/// A template made of raw text only renders to that text, unchanged, whatever
/// the data and the filters.
pub proof fn raw_passthrough<F: Filters>(f: &F, t: Template, globals: Data)
    requires
        forall|i: int| 0 <= i < t.scope.stmts@.len() ==> #[trigger] t.scope.stmts@[i] is Raw,
    ensures
        render_spec(f, t, globals) == Ok::<Seq<char>, Error>(raw_text(t.scope.stmts@, 0)),
{
    lemma_raw_block(f, t.scope, 0, seq![globals]);
}

/// An inline expression whose value is a scalar writes that scalar's text
/// (nothing for none); a list or a map is a type error at the expression's
/// span.
pub proof fn inline_expr_output<F: Filters>(f: &F, ie: InlineExpr, locals: Seq<Data>, v: Data)
    requires
        eval_spec(f, ie.expr, locals) == Ok::<Data, Error>(v),
    ensures
        v is Null ==> run_stmt(f, Stmt::InlineExpr(ie), locals) == Ok::<Seq<char>, Error>(Seq::empty()),
        !(v is List || v is Dict) ==> run_stmt(f, Stmt::InlineExpr(ie), locals) == Ok::<Seq<char>, Error>(
            text_of(v)->Some_0,
        ),
        (v is List || v is Dict) ==> run_stmt(f, Stmt::InlineExpr(ie), locals) == Err::<Seq<char>, Error>(
            err_at(ErrorKind::ExpectedRenderable(kind_of(v)), ie.expr.span_spec()),
        ),
{
}

/// The first statement of a block that fails decides the block: what follows
/// it does not run.
pub proof fn block_first_error<F: Filters>(f: &F, scope: Scope, pos: int, i: int, locals: Seq<Data>, e: Error)
    requires
        0 <= pos <= i < scope.stmts@.len(),
        forall|j: int| pos <= j < i ==> #[trigger] run_stmt(f, scope.stmts@[j], locals) is Ok,
        run_stmt(f, scope.stmts@[i], locals) == Err::<Seq<char>, Error>(e),
    ensures
        run_block(f, scope, pos, locals) == Err::<Seq<char>, Error>(e),
    decreases i - pos,
{
    if pos < i {
        block_first_error(f, scope, pos + 1, i, locals, e);
        assert(run_stmt(f, scope.stmts@[pos], locals) is Ok);
    }
}

/// In any block, at any depth, whose statements before position `i` all
/// succeed, an inline expression at `i` that gives a list or a map fails the
/// block with a type error at that expression's span.
pub proof fn type_error_in_block<F: Filters>(f: &F, scope: Scope, locals: Seq<Data>, i: int, v: Data)
    requires
        0 <= i < scope.stmts@.len(),
        forall|j: int| 0 <= j < i ==> #[trigger] run_stmt(f, scope.stmts@[j], locals) is Ok,
        scope.stmts@[i] is InlineExpr,
        eval_spec(f, scope.stmts@[i]->InlineExpr_0.expr, locals) == Ok::<Data, Error>(v),
        v is List || v is Dict,
    ensures
        run_block(f, scope, 0, locals) == Err::<Seq<char>, Error>(
            err_at(ErrorKind::ExpectedRenderable(kind_of(v)), scope.stmts@[i]->InlineExpr_0.expr.span_spec()),
        ),
{
    let ie = scope.stmts@[i]->InlineExpr_0;
    assert(scope.stmts@[i] == Stmt::InlineExpr(ie));
    block_first_error(
        f,
        scope,
        0,
        i,
        locals,
        err_at(ErrorKind::ExpectedRenderable(kind_of(v)), ie.expr.span_spec()),
    );
}

/// An error in the body of a loop, for an element before which every element
/// bound and rendered, is the error of the whole loop.
pub proof fn loop_body_error<F: Filters>(f: &F, fl: ForLoop, it: Data, pos: int, q: int, outer: Seq<Data>, b: Data, e: Error)
    requires
        0 <= pos <= q < item_count(it),
        forall|p: int| pos <= p < q ==> (#[trigger] bind_spec(fl.vars, it, p) is Ok && run_block(
            f,
            fl.body,
            0,
            outer.push(bind_spec(fl.vars, it, p)->Ok_0),
        ) is Ok),
        bind_spec(fl.vars, it, q) == Ok::<Data, Error>(b),
        run_block(f, fl.body, 0, outer.push(b)) == Err::<Seq<char>, Error>(e),
    ensures
        run_loop(f, fl, it, pos, outer) == Err::<Seq<char>, Error>(e),
    decreases q - pos,
{
    if pos < q {
        loop_body_error(f, fl, it, pos + 1, q, outer, b, e);
        assert(bind_spec(fl.vars, it, pos) is Ok);
    }
}

/// In a template whose statements before position `i` all succeed, an inline
/// expression at `i` that gives a list or a map fails the whole render with a
/// type error at that expression's span, whatever follows it.
pub proof fn type_error_at_expr<F: Filters>(f: &F, t: Template, globals: Data, i: int, v: Data)
    requires
        0 <= i < t.scope.stmts@.len(),
        forall|j: int| 0 <= j < i ==> #[trigger] run_stmt(f, t.scope.stmts@[j], seq![globals]) is Ok,
        t.scope.stmts@[i] is InlineExpr,
        eval_spec(f, t.scope.stmts@[i]->InlineExpr_0.expr, seq![globals]) == Ok::<Data, Error>(v),
        v is List || v is Dict,
    ensures
        render_spec(f, t, globals) == Err::<Seq<char>, Error>(
            err_at(ErrorKind::ExpectedRenderable(kind_of(v)), t.scope.stmts@[i]->InlineExpr_0.expr.span_spec()),
        ),
{
    type_error_in_block(f, t.scope, seq![globals], i, v);
}

/// A conditional runs exactly one of its branches: the first when the
/// condition is true, the second (or nothing) when it is false.
pub proof fn conditional_exclusivity<F: Filters>(f: &F, ie: IfElse, locals: Seq<Data>, b: bool)
    requires
        eval_spec(f, ie.cond, locals) == Ok::<Data, Error>(Data::Bool(b)),
    ensures
        b ==> run_stmt(f, Stmt::IfElse(ie), locals) == run_block(f, ie.then_branch, 0, locals),
        !b && ie.else_branch is Some ==> run_stmt(f, Stmt::IfElse(ie), locals) == run_block(
            f,
            ie.else_branch->Some_0,
            0,
            locals,
        ),
        !b && ie.else_branch is None ==> run_stmt(f, Stmt::IfElse(ie), locals) == Ok::<Seq<char>, Error>(
            Seq::empty(),
        ),
{
}

/// A key-value binding over a list, or a single name over a map, fails at the
/// binding's span on the first remaining element, before the body runs for it.
pub proof fn loop_arity<F: Filters>(f: &F, fl: ForLoop, it: Data, pos: int, outer: Seq<Data>)
    requires
        0 <= pos < item_count(it),
    ensures
        (it is List && fl.vars is KeyValue) ==> run_loop(f, fl, it, pos, outer) == Err::<Seq<char>, Error>(
            err_at(ErrorKind::UnpackListIntoTwo, fl.vars->KeyValue_0.span),
        ),
        (it is Dict && fl.vars is Item) ==> run_loop(f, fl, it, pos, outer) == Err::<Seq<char>, Error>(
            err_at(ErrorKind::UnpackMapIntoOne, fl.vars->Item_0.span),
        ),
{
}

/// A loop statement whose iterable is a non-empty list bound to two names, or
/// a non-empty map bound to one, fails at the binding's span and its body
/// never runs.
pub proof fn loop_arity_stmt<F: Filters>(f: &F, fl: ForLoop, it: Data, locals: Seq<Data>)
    requires
        eval_spec(f, fl.iterable, locals) == Ok::<Data, Error>(it),
        item_count_pos(it),
    ensures
        (it is List && fl.vars is KeyValue) ==> run_stmt(f, Stmt::ForLoop(fl), locals) == Err::<Seq<char>, Error>(
            err_at(ErrorKind::UnpackListIntoTwo, fl.vars->KeyValue_0.span),
        ),
        (it is Dict && fl.vars is Item) ==> run_stmt(f, Stmt::ForLoop(fl), locals) == Err::<Seq<char>, Error>(
            err_at(ErrorKind::UnpackMapIntoOne, fl.vars->Item_0.span),
        ),
{
    loop_arity(f, fl, it, 0, locals);
}

/// A list or a map with at least one element.
pub open spec fn item_count_pos(it: Data) -> bool {
    match it {
        Data::List(l) => l.len() > 0,
        Data::Dict(m) => m.len() > 0,
        _ => false,
    }
}

proof fn lemma_fallback(locals: Seq<Data>, path: Seq<Ident>, i: int, k: int)
    requires
        0 <= k <= i < locals.len(),
        path.len() > 0,
        forall|j: int| k < j <= i ==> #[trigger] lookup_spec(locals[j], path[0]) is Err,
        lookup_spec(locals[k], path[0]) is Ok,
    ensures
        resolve_at(locals, path, i) == walk_spec(locals[k], path, 0),
    decreases i,
{
    if i > k {
        assert(lookup_spec(locals[i], path[0]) is Err);
        lemma_fallback(locals, path, i - 1, k);
    }
}

/// A path whose first segment the inner frames lack resolves in the
/// innermost frame that has it, as if the inner frames were not there.
pub proof fn scope_fallback(locals: Seq<Data>, path: Seq<Ident>, k: int)
    requires
        0 <= k < locals.len(),
        path.len() > 0,
        forall|j: int| k < j < locals.len() ==> #[trigger] lookup_spec(locals[j], path[0]) is Err,
        lookup_spec(locals[k], path[0]) is Ok,
    ensures
        resolve_spec(locals, path) == walk_spec(locals[k], path, 0),
{
    lemma_fallback(locals, path, locals.len() - 1, k);
}

proof fn lemma_not_found(locals: Seq<Data>, path: Seq<Ident>, i: int)
    requires
        0 <= i < locals.len(),
        path.len() > 0,
        forall|j: int| 0 < j <= i ==> #[trigger] lookup_spec(locals[j], path[0]) is Err,
        lookup_spec(locals[0], path[0]) is Err,
    ensures
        resolve_at(locals, path, i) == Err::<Data, Error>(lookup_spec(locals[0], path[0])->Err_0),
    decreases i,
{
    if i > 0 {
        assert(lookup_spec(locals[i], path[0]) is Err);
        lemma_not_found(locals, path, i - 1);
    }
}

/// A first segment that no frame has fails with the error of the outermost
/// frame, at the span of that segment; for a map, "not found".
pub proof fn scope_not_found(locals: Seq<Data>, path: Seq<Ident>)
    requires
        locals.len() > 0,
        path.len() > 0,
        forall|j: int| 0 <= j < locals.len() ==> #[trigger] lookup_spec(locals[j], path[0]) is Err,
    ensures
        resolve_spec(locals, path) is Err,
        resolve_spec(locals, path)->Err_0.span == path[0].span,
        locals[0] is Dict ==> resolve_spec(locals, path) == Err::<Data, Error>(
            err_at(ErrorKind::NotFound, path[0].span),
        ),
{
    assert(lookup_spec(locals[0], path[0]) is Err);
    lemma_not_found(locals, path, locals.len() - 1);
}

/// In `a | g | h` the receiver is evaluated first, then `g` applied to it,
/// then `h` to what `g` gave; an unknown `g` fails before `h` is looked up.
pub proof fn filter_chaining<F: Filters>(f: &F, a: Expr, g: Ident, h: Ident, c1: Call, c2: Call, locals: Seq<Data>)
    requires
        c1.name == g,
        *c1.receiver == a,
        c2.name == h,
        *c2.receiver == Expr::Call(c1),
    ensures
        eval_spec(f, Expr::Call(c2), locals) == match eval_spec(f, a, locals) {
            Err(e) => Err(e),
            Ok(v) => match f.filter_spec(g.raw, v) {
                None => Err(err_at(ErrorKind::UnknownFilter, g.span)),
                Some(w) => match f.filter_spec(h.raw, w) {
                    None => Err(err_at(ErrorKind::UnknownFilter, h.span)),
                    Some(r) => Ok::<Data, Error>(r),
                },
            },
        },
{
    assert(eval_spec(f, Expr::Call(c1), locals) == match eval_spec(f, a, locals) {
        Err(e) => Err(e),
        Ok(v) => match f.filter_spec(g.raw, v) {
            None => Err(err_at(ErrorKind::UnknownFilter, g.span)),
            Some(w) => Ok::<Data, Error>(w),
        },
    });
}

} // verus!
