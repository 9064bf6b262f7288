//! Values that scripts return.
use vstd::prelude::*;
use crate::number::{format_i64, signed_decimal};
use crate::text::concat3;
use crate::value::{bool_text, format_bool};

verus! {

/// A string of a script: text, or bytes that are not text.
#[derive(Debug)]
pub enum LuaText {
    Text(String),
    /// Bytes that are not UTF-8: their text with replacement characters, and what is wrong.
    Bytes { lossy: String, error: String },
}

/// A value that a script returned.
#[derive(Debug)]
pub enum LuaValue {
    Nil,
    Boolean(bool),
    Integer(i64),
    /// A number that is no integer: its text in a string, and its text in a configuration tree.
    Number { text: String, notation: String },
    String(LuaText),
    /// The entries in the order in which the table is walked.
    Table(Vec<(LuaValue, LuaValue)>),
    /// Any other value, by the name of its type.
    Other(String),
}

impl LuaText {
    /// The text, with replacement characters where the bytes are no text.
    pub open spec fn lossy_text(self) -> Seq<char> {
        match self {
            LuaText::Text(s) => s@,
            LuaText::Bytes { lossy, .. } => lossy@,
        }
    }
}

/// What a value is written as inside a text.
pub open spec fn interpolated(v: LuaValue) -> Seq<char> {
    match v {
        LuaValue::Nil => seq![],
        LuaValue::Boolean(b) => bool_text(b),
        LuaValue::Integer(i) => signed_decimal(i as int),
        LuaValue::Number { text, .. } => text@,
        LuaValue::String(s) => s.lossy_text(),
        LuaValue::Table(_) => "<"@ + "table"@ + ">"@,
        LuaValue::Other(t) => "<"@ + t@ + ">"@,
    }
}

/// What a value is written as inside a text: nothing for nil, the value itself if it has a text,
/// and otherwise the name of its type in angle brackets.
pub fn lua_value_to_string(value: &LuaValue) -> (r: String)
    ensures
        r@ == interpolated(*value),
{
    match value {
        LuaValue::Nil => {
            let r = String::new();
            assert(r@ == Seq::<char>::empty());
            r
        },
        LuaValue::Boolean(b) => format_bool(*b),
        LuaValue::Integer(i) => format_i64(*i),
        LuaValue::Number { text, .. } => text.clone(),
        LuaValue::String(LuaText::Text(s)) => s.clone(),
        LuaValue::String(LuaText::Bytes { lossy, .. }) => lossy.clone(),
        LuaValue::Table(_) => concat3("<", "table", ">"),
        LuaValue::Other(t) => concat3("<", t.as_str(), ">"),
    }
}

/// The name of the type of a value.
pub open spec fn kind_of(v: LuaValue) -> Seq<char> {
    match v {
        LuaValue::Nil => "nil"@,
        LuaValue::Boolean(_) => "boolean"@,
        LuaValue::Integer(_) => "integer"@,
        LuaValue::Number { .. } => "number"@,
        LuaValue::String(_) => "string"@,
        LuaValue::Table(_) => "table"@,
        LuaValue::Other(t) => t@,
    }
}

impl LuaValue {
    /// The name of the type of the value.
    pub fn kind(&self) -> (r: String)
        ensures
            r@ == kind_of(*self),
    {
        match self {
            LuaValue::Nil => "nil".to_owned(),
            LuaValue::Boolean(_) => "boolean".to_owned(),
            LuaValue::Integer(_) => "integer".to_owned(),
            LuaValue::Number { .. } => "number".to_owned(),
            LuaValue::String(_) => "string".to_owned(),
            LuaValue::Table(_) => "table".to_owned(),
            LuaValue::Other(t) => t.clone(),
        }
    }
}

/// Inside a text nil is nothing, a truth value and a number are written out, a text stands as it
/// is, and any other value is the name of its type in angle brackets.
pub proof fn law_values_inside_a_text(v: LuaValue, r: String)
    requires
        call_ensures(lua_value_to_string, (&v,), r),
    ensures
        match v {
            LuaValue::Nil => r@.len() == 0,
            LuaValue::Boolean(b) => r@ == if b {
                "true"@
            } else {
                "false"@
            },
            LuaValue::Integer(i) => r@ == signed_decimal(i as int),
            LuaValue::Number { text, .. } => r@ == text@,
            LuaValue::String(LuaText::Text(s)) => r@ == s@,
            LuaValue::String(LuaText::Bytes { lossy, .. }) => r@ == lossy@,
            LuaValue::Table(_) => r@ == "<"@ + "table"@ + ">"@,
            LuaValue::Other(t) => r@ == "<"@ + t@ + ">"@,
        },
{
}

/// Each kind of value has its name.
pub proof fn law_names_of_kinds(v: LuaValue, r: String)
    requires
        call_ensures(LuaValue::kind, (&v,), r),
    ensures
        match v {
            LuaValue::Nil => r@ == "nil"@,
            LuaValue::Boolean(_) => r@ == "boolean"@,
            LuaValue::Integer(_) => r@ == "integer"@,
            LuaValue::Number { .. } => r@ == "number"@,
            LuaValue::String(_) => r@ == "string"@,
            LuaValue::Table(_) => r@ == "table"@,
            LuaValue::Other(t) => r@ == t@,
        },
{
}

} // verus!
