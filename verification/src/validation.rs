use vstd::prelude::*;

use crate::json::JsonValue;
use crate::paths::Location;

verus! {

/// The kinds of JSON values that a schema can ask for.
#[derive(Debug, Clone, Copy, PartialEq, Eq)]
pub enum JsonType {
    Array,
    Boolean,
    Integer,
    Null,
    Number,
    Object,
    String,
}

/// What an error of validation reports.
#[derive(Debug, PartialEq)]
pub enum ValidationErrorKind {
    /// The value is not of the expected kind.
    Type { expected: JsonType },
    /// The object lacks a required property, whose name is given as a JSON
    /// string.
    Required { property: JsonValue },
}

/// An error found while compiling a schema or validating an instance.
#[derive(Debug, PartialEq)]
pub struct ValidationError<'a> {
    /// Where in the schema the failing keyword stands.
    pub schema_path: Location,
    /// The path by which validation reached that keyword.
    pub evaluation_path: Location,
    /// Where in the instance the failing value stands.
    pub instance_path: Location,
    /// The failing value.
    pub instance: &'a JsonValue,
    pub kind: ValidationErrorKind,
}

impl<'a> ValidationError<'a> {
    /// An error for a value that is not of the kind `expected`.
    pub fn single_type_error(
        schema_path: Location,
        evaluation_path: Location,
        instance_path: Location,
        instance: &'a JsonValue,
        expected: JsonType,
    ) -> (e: ValidationError<'a>)
        ensures
            e == (ValidationError {
                schema_path,
                evaluation_path,
                instance_path,
                instance,
                kind: ValidationErrorKind::Type { expected },
            }),
    {
        ValidationError {
            schema_path,
            evaluation_path,
            instance_path,
            instance,
            kind: ValidationErrorKind::Type { expected },
        }
    }

    /// An error for an object that lacks the property `property`.
    pub fn required(
        schema_path: Location,
        evaluation_path: Location,
        instance_path: Location,
        instance: &'a JsonValue,
        property: JsonValue,
    ) -> (e: ValidationError<'a>)
        ensures
            e == (ValidationError {
                schema_path,
                evaluation_path,
                instance_path,
                instance,
                kind: ValidationErrorKind::Required { property },
            }),
    {
        ValidationError {
            schema_path,
            evaluation_path,
            instance_path,
            instance,
            kind: ValidationErrorKind::Required { property },
        }
    }
}

} // verus!
