use vstd::prelude::*;

verus! {

/// A byte range `start..end` of the template source.
#[derive(Clone, Copy, Debug, PartialEq, Eq, Structural)]
pub struct Span {
    pub start: usize,
    pub end: usize,
}

/// The shape of a value, as named in error messages.
#[derive(Clone, Copy, Debug, PartialEq, Eq, Structural)]
pub enum Kind {
    Null,
    Bool,
    Integer,
    String,
    List,
    Dict,
}

impl Kind {
    /// The human-readable name of this kind.
    pub fn human(&self) -> (r: &'static str)
        ensures
            r@ == self.human_spec(),
    {
        proof {
            reveal_strlit("none");
            reveal_strlit("bool");
            reveal_strlit("integer");
            reveal_strlit("string");
            reveal_strlit("list");
            reveal_strlit("map");
        }
        match self {
            Kind::Null => "none",
            Kind::Bool => "bool",
            Kind::Integer => "integer",
            Kind::String => "string",
            Kind::List => "list",
            Kind::Dict => "map",
        }
    }

    pub open spec fn human_spec(&self) -> Seq<char> {
        match self {
            Kind::Null => "none"@,
            Kind::Bool => "bool"@,
            Kind::Integer => "integer"@,
            Kind::String => "string"@,
            Kind::List => "list"@,
            Kind::Dict => "map"@,
        }
    }
}

/// What went wrong during a render.
#[derive(Clone, Copy, Debug, PartialEq, Eq, Structural)]
pub enum ErrorKind {
    /// A path segment names no entry of a map.
    NotFound,
    /// A list was indexed by a segment that is not a decimal number.
    ListIndexNotNumber,
    /// A list index is past the end of the list.
    IndexOutOfBounds,
    /// A path segment was applied to a value that is neither a list nor a map.
    CannotIndexInto(Kind),
    /// An inline expression gave a list or a map.
    ExpectedRenderable(Kind),
    /// A condition gave something other than a bool.
    ExpectedBool(Kind),
    /// A loop was asked to iterate something other than a list or a map.
    ExpectedIterable(Kind),
    /// A list element was bound to a key and a value.
    UnpackListIntoTwo,
    /// A map entry was bound to a single name.
    UnpackMapIntoOne,
    /// A filter name is not in the registry.
    UnknownFilter,
}

/// A render error: what went wrong and where in the source.
#[derive(Clone, Copy, Debug, PartialEq, Eq, Structural)]
pub struct Error {
    pub kind: ErrorKind,
    pub span: Span,
}

impl Error {
    /// The human-readable message of this error.
    pub fn message(&self) -> (r: String)
        ensures
            r@ == self.kind.message_spec(),
    {
        self.kind.message()
    }
}

impl ErrorKind {
    pub open spec fn message_spec(&self) -> Seq<char> {
        match self {
            ErrorKind::NotFound => "not found in map"@,
            ErrorKind::ListIndexNotNumber => "cannot index list with string"@,
            ErrorKind::IndexOutOfBounds => "list index out of bounds"@,
            ErrorKind::CannotIndexInto(k) => "cannot index into "@ + k.human_spec(),
            ErrorKind::ExpectedRenderable(k) => "expected renderable value, but expression evaluated to "@
                + k.human_spec(),
            ErrorKind::ExpectedBool(k) => "expected bool, but expression evaluated to "@ + k.human_spec(),
            ErrorKind::ExpectedIterable(k) => "expected iterable, but expression evaluated to "@
                + k.human_spec(),
            ErrorKind::UnpackListIntoTwo => "cannot unpack list item into two variables"@,
            ErrorKind::UnpackMapIntoOne => "cannot unpack map item into one variable"@,
            ErrorKind::UnknownFilter => "unknown filter function"@,
        }
    }

    /// The human-readable message of this kind of error.
    pub fn message(&self) -> (r: String)
        ensures
            r@ == self.message_spec(),
    {
        match self {
            ErrorKind::NotFound => String::from_str("not found in map"),
            ErrorKind::ListIndexNotNumber => String::from_str("cannot index list with string"),
            ErrorKind::IndexOutOfBounds => String::from_str("list index out of bounds"),
            ErrorKind::CannotIndexInto(k) => String::from_str("cannot index into ").concat(k.human()),
            ErrorKind::ExpectedRenderable(k) => String::from_str(
                "expected renderable value, but expression evaluated to ",
            ).concat(k.human()),
            ErrorKind::ExpectedBool(k) => String::from_str(
                "expected bool, but expression evaluated to ",
            ).concat(k.human()),
            ErrorKind::ExpectedIterable(k) => String::from_str(
                "expected iterable, but expression evaluated to ",
            ).concat(k.human()),
            ErrorKind::UnpackListIntoTwo => String::from_str(
                "cannot unpack list item into two variables",
            ),
            ErrorKind::UnpackMapIntoOne => String::from_str("cannot unpack map item into one variable"),
            ErrorKind::UnknownFilter => String::from_str("unknown filter function"),
        }
    }
}

} // verus!
