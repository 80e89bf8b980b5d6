//! The registry of named filters that expressions may apply.
use vstd::prelude::*;
use crate::value::{Data, Value};

verus! {

/// A registry of filters: pure unary functions on values, looked up by name.
pub trait Filters {
    /// The result of the filter named `name` on `v`, or `None` where the
    /// registry has no filter of that name. It is never run: an
    /// implementation outside verified code may panic in it.
    spec fn filter_spec(&self, name: String, v: Data) -> Option<Data>;

    /// Looks up the filter named `name` and applies it to `v`. A filter is
    /// total: `None` means that no filter has that name, whatever the value.
    fn apply(&self, name: &String, v: Value) -> (r: Option<Value>)
        ensures
            match r {
                Some(x) => self.filter_spec(*name, v.model()) == Some(x.model()),
                None => self.filter_spec(*name, v.model()) is None,
            },
            r is None ==> forall|w: Data| #[trigger] self.filter_spec(*name, w) is None,
    ;
}

/// The empty registry: no name is a filter.
pub struct NoFilters;

impl Filters for NoFilters {
    open spec fn filter_spec(&self, name: String, v: Data) -> Option<Data> {
        None
    }

    fn apply(&self, name: &String, v: Value) -> (r: Option<Value>) {
        None
    }
}

} // verus!
