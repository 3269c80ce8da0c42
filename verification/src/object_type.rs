//! A plain tagged reading of a decoded value by its runtime type name.

use vstd::prelude::*;
use crate::values::str_eq;
use crate::text::chars_of;
use crate::text::string_from_chars;
use crate::text::parse_i64_chars;
use crate::text::spec_is_int_string;
use crate::text::spec_int_string_value;

verus! {

/// A value tagged by the runtime type name it was read under.
#[derive(Debug)]
pub enum ObjectType {
    NoneType,
    Bool(bool),
    Int(i64),
    Str(String),
    DictEntryValueGenericRepresentation(Vec<ObjectType>),
}

/// Which type names [`ObjectType::from_python_type_name`] reads.
pub open spec fn spec_known_object_type(name: Seq<char>) -> bool {
    ||| name == "NoneType"@
    ||| name == "bool"@
    ||| name == "int"@
    ||| name == "str"@
}

/// The integer value a textual `int` stands for: its parse, or zero when it
/// does not parse or no text was given.
pub open spec fn spec_int_or_zero(value: Option<Seq<char>>) -> int {
    match value {
        Some(s) => if spec_is_int_string(s) && i64::MIN <= spec_int_string_value(s) <= i64::MAX {
            spec_int_string_value(s)
        } else {
            0
        },
        None => 0,
    }
}

impl ObjectType {
    /// Reads a textual value under one of the four plain type names:
    /// `NoneType` stands alone, `bool` is true exactly for the text `true`,
    /// `int` is the parsed value or zero, and `str` is the text itself (or
    /// empty).
    pub fn from_python_type_name(type_id: &str, value: Option<&str>) -> (r: ObjectType)
        requires
            spec_known_object_type(type_id@),
        ensures
            type_id@ == "NoneType"@ ==> r is NoneType,
            type_id@ == "bool"@ ==> r == ObjectType::Bool(
                match value {
                    Some(v) => v@ == "true"@,
                    None => false,
                },
            ),
            type_id@ == "int"@ ==> (r matches ObjectType::Int(v) && v as int == spec_int_or_zero(
                match value {
                    Some(s) => Some(s@),
                    None => None,
                },
            )),
            type_id@ == "str"@ ==> (r matches ObjectType::Str(s) && s@ == (match value {
                Some(v) => v@,
                None => Seq::<char>::empty(),
            })),
    {
        proof {
            reveal_strlit("NoneType");
            reveal_strlit("bool");
            reveal_strlit("int");
            reveal_strlit("str");
            assert("NoneType"@.len() == 8);
            assert("bool"@.len() == 4);
            assert("int"@.len() == 3);
            assert("str"@.len() == 3);
            assert("int"@[0] == 'i' && "str"@[0] == 's');
        }
        if str_eq(type_id, "NoneType") {
            ObjectType::NoneType
        } else if str_eq(type_id, "bool") {
            let flag = match value {
                Some(v) => str_eq(v, "true"),
                None => false,
            };
            ObjectType::Bool(flag)
        } else if str_eq(type_id, "int") {
            let parsed: i64 = match value {
                Some(v) => {
                    let chars = chars_of(v);
                    match parse_i64_chars(&chars) {
                        Some(n) => n,
                        None => 0,
                    }
                },
                None => 0,
            };
            ObjectType::Int(parsed)
        } else {
            let text = match value {
                Some(v) => {
                    let chars = chars_of(v);
                    string_from_chars(&chars)
                },
                None => String::new(),
            };
            ObjectType::Str(text)
        }
    }
}

} // verus!
