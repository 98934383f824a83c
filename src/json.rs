use vstd::prelude::*;

verus! {

/// A loosely typed structured value: the shape that tool arguments and
/// provider configurations arrive in.
#[derive(Debug, PartialEq)]
pub enum JsonValue {
    Null,
    Bool(bool),
    /// A number, kept as the text it was written as.
    Number(String),
    Str(String),
    Array(Vec<JsonValue>),
    Object(Vec<(String, JsonValue)>),
}

} // verus!
