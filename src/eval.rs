//! Expression evaluation: variable paths resolved against the scope stack,
//! and filters applied to their receivers.
use vstd::prelude::*;
use crate::ast::{BaseExpr, Expr, Ident};
use crate::error::{Error, ErrorKind, Kind, Span};
use crate::filters::Filters;
use crate::value::{Data, Value};

verus! {

/// The kind of a modelled value.
pub open spec fn kind_of(d: Data) -> Kind {
    match d {
        Data::Null => Kind::Null,
        Data::Bool(_) => Kind::Bool,
        Data::Int(_) => Kind::Integer,
        Data::Str(_) => Kind::String,
        Data::List(_) => Kind::List,
        Data::Dict(_) => Kind::Dict,
    }
}

impl Value {
    /// The kind of this value, as named in error messages.
    pub fn kind(&self) -> (r: Kind)
        ensures
            r == kind_of(self.model()),
    {
        match self {
            Value::Null => Kind::Null,
            Value::Bool(_) => Kind::Bool,
            Value::Integer(_) => Kind::Integer,
            Value::String(_) => Kind::String,
            Value::List(_) => Kind::List,
            Value::Dict(_) => Kind::Dict,
        }
    }

    /// The human-readable name of this value's kind.
    pub fn human(&self) -> (r: &'static str)
        ensures
            r@ == kind_of(self.model()).human_spec(),
    {
        self.kind().human()
    }
}

/// The models of a sequence of values.
pub open spec fn models(s: Seq<Value>) -> Seq<Data> {
    s.map_values(|v: Value| v.model())
}

pub open spec fn err_at(kind: ErrorKind, span: Span) -> Error {
    Error { kind, span }
}

pub open spec fn is_digit(c: char) -> bool {
    '0' <= c <= '9'
}

/// The number that a string of decimal digits denotes.
pub open spec fn digits_value(s: Seq<char>) -> nat
    decreases s.len(),
{
    if s.len() == 0 {
        0
    } else {
        digits_value(s.drop_last()) * 10 + (s.last() as nat - '0' as nat) as nat
    }
}

/// The digits of a list index: the segment without one leading `+`.
pub open spec fn index_digits(s: Seq<char>) -> Seq<char> {
    if s.len() > 0 && s[0] == '+' {
        s.drop_first()
    } else {
        s
    }
}

/// A path segment read as a list index: an optional `+` and a non-empty run of
/// decimal digits whose value fits a `usize`; anything else is no index.
pub open spec fn index_spec(s: Seq<char>) -> Option<nat> {
    let d = index_digits(s);
    if d.len() > 0 && (forall|i: int| 0 <= i < d.len() ==> is_digit(#[trigger] d[i]))
        && digits_value(d) <= usize::MAX {
        Some(digits_value(d))
    } else {
        None
    }
}

/// The value of the first entry of `m` from position `i` on whose key is `k`.
pub open spec fn find_from(m: Seq<(Seq<char>, Data)>, k: Seq<char>, i: int) -> Option<Data>
    decreases m.len() - i,
{
    if i < 0 || i >= m.len() {
        None
    } else if m[i].0 == k {
        Some(m[i].1)
    } else {
        find_from(m, k, i + 1)
    }
}

/// One path segment applied to a value: an index into a list, or a key of a
/// map, where the first entry with that key is taken.
pub open spec fn lookup_spec(d: Data, seg: Ident) -> Result<Data, Error> {
    match d {
        Data::List(l) => match index_spec(seg.raw@) {
            None => Err(err_at(ErrorKind::ListIndexNotNumber, seg.span)),
            Some(n) => if n < l.len() {
                Ok(l[n as int])
            } else {
                Err(err_at(ErrorKind::IndexOutOfBounds, seg.span))
            },
        },
        Data::Dict(m) => match find_from(m, seg.raw@, 0) {
            Some(v) => Ok(v),
            None => Err(err_at(ErrorKind::NotFound, seg.span)),
        },
        _ => Err(err_at(ErrorKind::CannotIndexInto(kind_of(d)), seg.span)),
    }
}

/// The segments of `path` from position `j` on applied to `d` in turn.
pub open spec fn walk_spec(d: Data, path: Seq<Ident>, j: int) -> Result<Data, Error>
    decreases path.len() - j,
{
    if j < 0 || j >= path.len() {
        Ok(d)
    } else {
        match lookup_spec(d, path[j]) {
            Ok(x) => walk_spec(x, path, j + 1),
            Err(e) => Err(e),
        }
    }
}

/// Resolution of `path` starting at frame `i` of the scope stack: a frame
/// whose value lacks the first segment hands the path on to the frame below,
/// and the outermost frame decides.
pub open spec fn resolve_at(locals: Seq<Data>, path: Seq<Ident>, i: int) -> Result<Data, Error>
    decreases i,
{
    if i > 0 && path.len() > 0 && lookup_spec(locals[i], path[0]) is Err {
        resolve_at(locals, path, i - 1)
    } else {
        walk_spec(locals[i], path, 0)
    }
}

/// Resolution of `path` against the scope stack, innermost frame first.
pub open spec fn resolve_spec(locals: Seq<Data>, path: Seq<Ident>) -> Result<Data, Error> {
    resolve_at(locals, path, locals.len() - 1)
}

/// The value of an expression in the scope stack `locals`.
pub open spec fn eval_spec<F: Filters>(f: &F, expr: Expr, locals: Seq<Data>) -> Result<Data, Error>
    decreases expr,
{
    match expr {
        Expr::Base(BaseExpr::Var(v)) => resolve_spec(locals, v.path@),
        Expr::Base(BaseExpr::Literal(l)) => Ok(l.value.model()),
        Expr::Call(c) => match eval_spec(f, *c.receiver, locals) {
            Err(e) => Err(e),
            Ok(v) => match f.filter_spec(c.name.raw, v) {
                Some(r) => Ok(r),
                None => Err(err_at(ErrorKind::UnknownFilter, c.name.span)),
            },
        },
    }
}

pub open spec fn result_model(r: Result<Value, Error>) -> Result<Data, Error> {
    match r {
        Ok(v) => Ok(v.model()),
        Err(e) => Err(e),
    }
}

proof fn lemma_digits_prefix_le(s: Seq<char>, i: int)
    requires
        0 <= i <= s.len(),
        forall|k: int| 0 <= k < s.len() ==> is_digit(#[trigger] s[k]),
    ensures
        digits_value(s.take(i)) <= digits_value(s),
    decreases s.len() - i,
{
    if i < s.len() {
        lemma_digits_prefix_le(s, i + 1);
        assert(s.take(i + 1).drop_last() =~= s.take(i));
    } else {
        assert(s.take(i) =~= s);
    }
}

/// Reads `s` as a list index.
fn parse_index(s: &str) -> (r: Option<usize>)
    ensures
        match r {
            None => index_spec(s@) is None,
            Some(n) => index_spec(s@) == Some(n as nat),
        },
{
    let len = s.unicode_len();
    let first: usize = if len > 0 && s.get_char(0) == '+' {
        1
    } else {
        0
    };
    let ghost d = index_digits(s@);
    proof {
        assert(d =~= s@.subrange(first as int, len as int));
    }
    if len == first {
        return None;
    }
    let mut acc: usize = 0;
    let mut i: usize = first;
    while i < len
        invariant
            len == s@.len(),
            first <= i <= len,
            d == s@.subrange(first as int, len as int),
            d == index_digits(s@),
            forall|k: int| 0 <= k < i - first ==> is_digit(#[trigger] d[k]),
            acc == digits_value(d.take(i - first)),
        decreases len - i,
    {
        let c = s.get_char(i);
        let ghost k = i - first;
        assert(d[k] == c);
        if !('0' <= c && c <= '9') {
            assert(!is_digit(d[k]));
            return None;
        }
        let dv = (c as u32 - '0' as u32) as usize;
        assert(d.take(k + 1).drop_last() =~= d.take(k));
        let bound = usize::MAX;
        let large = if acc > bound / 10 {
            assert(acc * 10 + dv > bound) by (nonlinear_arith)
                requires
                    acc > bound / 10,
            ;
            true
        } else {
            assert(acc * 10 <= bound) by (nonlinear_arith)
                requires
                    acc <= bound / 10,
            ;
            dv > bound - acc * 10
        };
        if large {
            proof {
                if forall|j: int| 0 <= j < d.len() ==> is_digit(#[trigger] d[j]) {
                    lemma_digits_prefix_le(d, k + 1);
                }
            }
            return None;
        }
        acc = acc * 10 + dv;
        i = i + 1;
    }
    assert(d.take(len - first) =~= d);
    Some(acc)
}

/// The entry of `m` whose key is `k`, the first one if several are.
fn find<'a>(m: &'a Vec<(String, Value)>, k: &String) -> (r: Option<&'a Value>)
    ensures
        match r {
            Some(v) => find_from(models_of_entries(m@), k@, 0) == Some(v.model()),
            None => find_from(models_of_entries(m@), k@, 0) is None,
        },
{
    let mut i: usize = 0;
    while i < m.len()
        invariant
            i <= m@.len(),
            find_from(models_of_entries(m@), k@, i as int) == find_from(models_of_entries(m@), k@, 0),
        decreases m@.len() - i,
    {
        assert(models_of_entries(m@)[i as int] == (m@[i as int].0@, m@[i as int].1.model()));
        if m[i].0.eq(k) {
            return Some(&m[i].1);
        }
        i = i + 1;
    }
    None
}

/// The entries of a map, modelled.
pub open spec fn models_of_entries(m: Seq<(String, Value)>) -> Seq<(Seq<char>, Data)> {
    m.map_values(|e: (String, Value)| (e.0@, e.1.model()))
}

/// Applies one path segment to `data`; of map entries sharing a key, the
/// first is found.
pub fn lookup<'a>(data: &'a Value, seg: &Ident) -> (r: Result<&'a Value, Error>)
    ensures
        match r {
            Ok(v) => lookup_spec(data.model(), *seg) == Ok::<Data, Error>(v.model()),
            Err(e) => lookup_spec(data.model(), *seg) == Err::<Data, Error>(e),
        },
{
    match data {
        Value::List(list) => match parse_index(seg.raw.as_str()) {
            None => Err(Error { kind: ErrorKind::ListIndexNotNumber, span: seg.span }),
            Some(i) => {
                if i < list.len() {
                    Ok(&list[i])
                } else {
                    Err(Error { kind: ErrorKind::IndexOutOfBounds, span: seg.span })
                }
            },
        },
        Value::Dict(map) => {
            proof {
                assert(data.model()->Dict_0 =~= models_of_entries(map@));
            }
            match find(map, &seg.raw) {
                Some(v) => Ok(v),
                None => Err(Error { kind: ErrorKind::NotFound, span: seg.span }),
            }
        },
        _ => Err(Error { kind: ErrorKind::CannotIndexInto(data.kind()), span: seg.span }),
    }
}

/// Applies every segment of `path` to `data` in turn, and copies the result.
fn walk(data: &Value, path: &Vec<Ident>) -> (r: Result<Value, Error>)
    ensures
        result_model(r) == walk_spec(data.model(), path@, 0),
{
    let mut cur: &Value = data;
    let mut j: usize = 0;
    while j < path.len()
        invariant
            j <= path@.len(),
            walk_spec(cur.model(), path@, j as int) == walk_spec(data.model(), path@, 0),
        decreases path@.len() - j,
    {
        match lookup(cur, &path[j]) {
            Ok(next) => {
                cur = next;
            },
            Err(e) => {
                return Err(e);
            },
        }
        j = j + 1;
    }
    Ok(cur.deep_clone())
}

/// Resolves `path` against the scope stack, innermost frame first.
pub fn resolve(locals: &Vec<Value>, path: &Vec<Ident>) -> (r: Result<Value, Error>)
    requires
        locals@.len() > 0,
    ensures
        result_model(r) == resolve_spec(models(locals@), path@),
{
    let mut i: usize = locals.len() - 1;
    loop
        invariant
            i < locals@.len(),
            resolve_at(models(locals@), path@, i as int) == resolve_spec(models(locals@), path@),
        decreases i,
    {
        let fall = if i > 0 && path.len() > 0 {
            match lookup(&locals[i], &path[0]) {
                Ok(_) => false,
                Err(_) => true,
            }
        } else {
            false
        };
        if fall {
            i = i - 1;
        } else {
            return walk(&locals[i], path);
        }
    }
}

/// Evaluates an expression in the scope stack `locals`.
pub fn eval<F: Filters>(f: &F, locals: &Vec<Value>, expr: &Expr) -> (r: Result<Value, Error>)
    requires
        locals@.len() > 0,
    ensures
        result_model(r) == eval_spec(f, *expr, models(locals@)),
    decreases expr,
{
    match expr {
        Expr::Base(BaseExpr::Var(v)) => resolve(locals, &v.path),
        Expr::Base(BaseExpr::Literal(l)) => Ok(l.value.deep_clone()),
        Expr::Call(c) => {
            let v = eval(f, locals, &c.receiver)?;
            match f.apply(&c.name.raw, v) {
                Some(r) => Ok(r),
                None => Err(Error { kind: ErrorKind::UnknownFilter, span: c.name.span }),
            }
        },
    }
}

} // verus!
