//! Payload schemas: expected fields of a webhook's JSON body.
use vstd::prelude::*;

use crate::json::{json_type_name, kind_name, resolve_field, resolve_path, Json};
use crate::text::{extend_str, string_of};

verus! {

/// The JSON type a payload field is expected to have.
#[derive(Clone, Copy, Debug, PartialEq, Eq, Structural)]
pub enum FieldType {
    String,
    Number,
    Boolean,
    Object,
    Array,
}

/// Whether a JSON value has the given type.
pub open spec fn type_matches(t: FieldType, value: Json) -> bool {
    match t {
        FieldType::String => value is String,
        FieldType::Number => value is Number,
        FieldType::Boolean => value is Bool,
        FieldType::Object => value is Object,
        FieldType::Array => value is Array,
    }
}

/// The lower-case name of a field type (what `Display` writes).
pub open spec fn field_type_name(t: FieldType) -> Seq<char> {
    match t {
        FieldType::String => "string"@,
        FieldType::Number => "number"@,
        FieldType::Boolean => "boolean"@,
        FieldType::Object => "object"@,
        FieldType::Array => "array"@,
    }
}

/// The field type with the given lower-case name, if any.
pub open spec fn field_type_named(s: Seq<char>) -> Option<FieldType> {
    if s == "string"@ {
        Some(FieldType::String)
    } else if s == "number"@ {
        Some(FieldType::Number)
    } else if s == "boolean"@ {
        Some(FieldType::Boolean)
    } else if s == "object"@ {
        Some(FieldType::Object)
    } else if s == "array"@ {
        Some(FieldType::Array)
    } else {
        None
    }
}

impl FieldType {
    /// Returns true if the JSON value matches this type.
    pub fn matches_value(self, value: &Json) -> (b: bool)
        ensures
            b == type_matches(self, *value),
    {
        match self {
            FieldType::String => matches!(value, Json::String(_)),
            FieldType::Number => matches!(value, Json::Number(_)),
            FieldType::Boolean => matches!(value, Json::Bool(_)),
            FieldType::Object => matches!(value, Json::Object(_)),
            FieldType::Array => matches!(value, Json::Array(_)),
        }
    }

    /// The lower-case name of this type, as an owned string.
    pub fn to_string(self) -> (s: String)
        ensures
            s@ == field_type_name(self),
    {
        self.as_str().to_owned()
    }

    /// The type named by its lower-case name, if any.
    pub fn from_name(name: &str) -> (r: Option<FieldType>)
        ensures
            match r {
                Some(t) => field_type_name(t) == name@,
                None => forall|t: FieldType| field_type_name(t) != name@,
            },
            r == field_type_named(name@),
    {
        let c = crate::text::chars_of(name);
        if crate::text::str_is("string", c.as_slice()) {
            Some(FieldType::String)
        } else if crate::text::str_is("number", c.as_slice()) {
            Some(FieldType::Number)
        } else if crate::text::str_is("boolean", c.as_slice()) {
            Some(FieldType::Boolean)
        } else if crate::text::str_is("object", c.as_slice()) {
            Some(FieldType::Object)
        } else if crate::text::str_is("array", c.as_slice()) {
            Some(FieldType::Array)
        } else {
            None
        }
    }

    /// The lower-case name of this type.
    pub fn as_str(self) -> (s: &'static str)
        ensures
            s@ == field_type_name(self),
    {
        match self {
            FieldType::String => "string",
            FieldType::Number => "number",
            FieldType::Boolean => "boolean",
            FieldType::Object => "object",
            FieldType::Array => "array",
        }
    }
}

/// A single field definition within a payload schema.
#[derive(Debug)]
pub struct PayloadField {
    pub name: String,
    pub field_type: FieldType,
    pub required: bool,
}

/// Per-hook payload schema: a list of expected fields.
#[derive(Debug)]
pub struct PayloadSchema {
    pub fields: Vec<PayloadField>,
}

/// A single validation error for a payload field.
#[derive(Debug)]
pub struct FieldValidationError {
    pub field: String,
    pub message: String,
}

/// The error one field definition raises against a payload, if any:
/// a missing (or null) required field, or a present field of the wrong type.
pub open spec fn field_error(f: PayloadField, payload: Json) -> Option<(Seq<char>, Seq<char>)> {
    match resolve_path(payload, f.name@) {
        Some(v) => if v is Null {
            if f.required {
                Some((f.name@, "required field '"@ + f.name@ + "' is missing"@))
            } else {
                None
            }
        } else if !type_matches(f.field_type, v) {
            Some((f.name@, "field '"@ + f.name@ + "' expected type "@ + field_type_name(f.field_type)
                + ", got "@ + kind_name(v)))
        } else {
            None
        },
        None => if f.required {
            Some((f.name@, "required field '"@ + f.name@ + "' is missing"@))
        } else {
            None
        },
    }
}

/// A field whose value is `null` is judged as if it were missing: against
/// a payload where the field resolves to `null` it raises the same error
/// as against any payload where it does not resolve at all, and so none
/// when it is optional.
pub proof fn null_field_counts_as_missing(f: PayloadField, with_null: Json, without: Json)
    requires
        resolve_path(with_null, f.name@) == Some(Json::Null),
        resolve_path(without, f.name@) is None,
    ensures
        field_error(f, with_null) == field_error(f, without),
        !f.required ==> field_error(f, with_null) is None,
        f.required ==> field_error(f, with_null) is Some,
{
}

/// All errors of a list of field definitions, in order.
pub open spec fn schema_errors(fields: Seq<PayloadField>, payload: Json) -> Seq<(Seq<char>, Seq<char>)>
    decreases fields.len(),
{
    if fields.len() == 0 {
        Seq::empty()
    } else {
        let rest = schema_errors(fields.drop_last(), payload);
        match field_error(fields.last(), payload) {
            Some(e) => rest.push(e),
            None => rest,
        }
    }
}

/// The (field, message) view of validation errors.
pub open spec fn error_views(errors: Seq<FieldValidationError>) -> Seq<(Seq<char>, Seq<char>)> {
    errors.map_values(|e: FieldValidationError| (e.field@, e.message@))
}

fn field_check(f: &PayloadField, payload: &Json) -> (r: Option<FieldValidationError>)
    ensures
        r matches Some(e) ==> field_error(*f, *payload) == Some((e.field@, e.message@)),
        r is None ==> field_error(*f, *payload) is None,
{
    match resolve_field(payload, f.name.as_str()) {
        Some(v) => {
            if v.is_null() {
                if f.required {
                    let mut m: Vec<char> = Vec::new();
                    extend_str(&mut m, "required field '");
                    extend_str(&mut m, f.name.as_str());
                    extend_str(&mut m, "' is missing");
                    Some(FieldValidationError { field: f.name.clone(), message: string_of(m.as_slice()) })
                } else {
                    None
                }
            } else if !f.field_type.matches_value(v) {
                let mut m: Vec<char> = Vec::new();
                extend_str(&mut m, "field '");
                extend_str(&mut m, f.name.as_str());
                extend_str(&mut m, "' expected type ");
                extend_str(&mut m, f.field_type.as_str());
                extend_str(&mut m, ", got ");
                extend_str(&mut m, json_type_name(v));
                Some(FieldValidationError { field: f.name.clone(), message: string_of(m.as_slice()) })
            } else {
                None
            }
        },
        None => {
            if f.required {
                let mut m: Vec<char> = Vec::new();
                extend_str(&mut m, "required field '");
                extend_str(&mut m, f.name.as_str());
                extend_str(&mut m, "' is missing");
                Some(FieldValidationError { field: f.name.clone(), message: string_of(m.as_slice()) })
            } else {
                None
            }
        },
    }
}

impl PayloadSchema {
    /// Validate a JSON value against this schema.
    ///
    /// Returns `Ok(())` if all required fields are present and all present
    /// fields match their declared types. Returns `Err` with a list of all
    /// validation errors (not short-circuited).
    pub fn validate(&self, payload: &Json) -> (r: Result<(), Vec<FieldValidationError>>)
        ensures
            r is Ok <==> schema_errors(self.fields@, *payload).len() == 0,
            r matches Err(errs) ==> error_views(errs@) == schema_errors(self.fields@, *payload),
    {
        let mut errors: Vec<FieldValidationError> = Vec::new();
        let mut i: usize = 0;
        while i < self.fields.len()
            invariant
                i <= self.fields@.len(),
                error_views(errors@) == schema_errors(self.fields@.subrange(0, i as int), *payload),
            decreases self.fields@.len() - i,
        {
            let ghost before = errors@;
            assert(self.fields@.subrange(0, i + 1).drop_last() == self.fields@.subrange(0, i as int));
            match field_check(&self.fields[i], payload) {
                Some(e) => {
                    errors.push(e);
                    assert(error_views(errors@) == error_views(before).push((e.field@, e.message@)));
                },
                None => {},
            }
            i = i + 1;
        }
        assert(self.fields@.subrange(0, self.fields@.len() as int) == self.fields@);
        if errors.len() == 0 {
            Ok(())
        } else {
            Err(errors)
        }
    }
}

} // verus!
