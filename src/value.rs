use vstd::prelude::*;

verus! {

/// Mathematical model of a [`Value`]: the same tree, with text as `Seq<char>`
/// and integers as `int`.
#[verifier::ext_equal]
pub enum Data {
    Null,
    Bool(bool),
    Int(int),
    Str(Seq<char>),
    List(Seq<Data>),
    Dict(Seq<(Seq<char>, Data)>),
}

/// The runtime data a template is rendered against.
pub enum Value {
    Null,
    Bool(bool),
    Integer(i64),
    String(String),
    List(Vec<Value>),
    /// Entries in insertion order. Keys are meant to be unique; where one
    /// repeats, a lookup finds the first entry and a loop visits every one.
    Dict(Vec<(String, Value)>),
}

impl Value {
    pub open spec fn model(&self) -> Data
        decreases self,
    {
        match self {
            Value::Null => Data::Null,
            Value::Bool(b) => Data::Bool(*b),
            Value::Integer(n) => Data::Int(*n as int),
            Value::String(s) => Data::Str(s@),
            Value::List(l) => Data::List(
                Seq::new(l@.len(), |i: int| if 0 <= i < l@.len() { l@[i].model() } else { Data::Null }),
            ),
            Value::Dict(m) => Data::Dict(
                Seq::new(m@.len(), |i: int| if 0 <= i < m@.len() { (m@[i].0@, m@[i].1.model()) } else { (Seq::empty(), Data::Null) }),
            ),
        }
    }

    pub fn deep_clone(&self) -> (r: Value)
        ensures
            r.model() == self.model(),
        decreases self,
    {
        match self {
            Value::Null => Value::Null,
            Value::Bool(b) => Value::Bool(*b),
            Value::Integer(n) => Value::Integer(*n),
            Value::String(s) => Value::String(s.clone()),
            Value::List(l) => {
                let mut out: Vec<Value> = Vec::new();
                let mut i: usize = 0;
                while i < l.len()
                    invariant
                        i <= l@.len(),
                        *self == Value::List(*l),
                        out@.len() == i,
                        forall|j: int| 0 <= j < i ==> (#[trigger] out@[j]).model() == l@[j].model(),
                    decreases l@.len() - i,
                {
                    proof {
                        broadcast use vstd::std_specs::vec::axiom_vec_index_decreases;
                        assert(decreases_to!(self->List_0 => self->List_0[i as int]));
                    }
                    out.push(l[i].deep_clone());
                    i = i + 1;
                }
                let r = Value::List(out);
                assert(r.model()->List_0 =~= self.model()->List_0);
                r
            },
            Value::Dict(m) => {
                let mut out: Vec<(String, Value)> = Vec::new();
                let mut i: usize = 0;
                while i < m.len()
                    invariant
                        i <= m@.len(),
                        *self == Value::Dict(*m),
                        out@.len() == i,
                        forall|j: int| 0 <= j < i ==> #[trigger] out@[j].0@ == m@[j].0@ && out@[j].1.model() == m@[j].1.model(),
                    decreases m@.len() - i,
                {
                    proof {
                        broadcast use vstd::std_specs::vec::axiom_vec_index_decreases;
                        assert(decreases_to!(self->Dict_0 => self->Dict_0[i as int]));
                    }
                    let k = m[i].0.clone();
                    let v = m[i].1.deep_clone();
                    out.push((k, v));
                    i = i + 1;
                }
                let r = Value::Dict(out);
                assert(r.model()->Dict_0 =~= self.model()->Dict_0);
                r
            },
        }
    }
}

} // verus!
