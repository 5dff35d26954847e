//! What can go wrong while a client is generated.
use serde_json::Value;
use typify::Error as TypifyError;
use vstd::prelude::*;
use vstd::string::*;

verus! {

/// A failure of the generator.
#[derive(Debug)]
pub enum Error {
    /// A value of a kind that was not expected.
    BadValue(String, Value),
    /// A schema for which no type could be made.
    TypeError(TypifyError),
    /// A document that is not in a supported format.
    UnexpectedFormat(String),
    /// A path that does not describe an operation.
    InvalidPath(String),
    /// A misused extension.
    InvalidExtension(String),
    /// A failure of the generator itself.
    InternalError(String),
}

/// `serde_json::Value`, a JSON value.
#[verifier::external_type_specification]
#[verifier::external_body]
pub struct ExValue(Value);

/// `typify::Error`, the reason why a schema was refused.
#[verifier::external_type_specification]
#[verifier::external_body]
pub struct ExTypifyError(TypifyError);

/// The compact JSON text of a value.
pub uninterp spec fn json_text(value: Value) -> Seq<char>;

/// The message of a refused schema.
pub uninterp spec fn type_error_text(error: TypifyError) -> Seq<char>;

/// `serde_json::Value::to_string`: the value as JSON on one line.
#[verifier::external_body]
fn value_text(value: &Value) -> (text: String)
    ensures
        text@ == json_text(*value),
{
    value.to_string()
}

/// `typify::Error::to_string`: the message of the error.
#[verifier::external_body]
fn typify_text(error: &TypifyError) -> (text: String)
    ensures
        text@ == type_error_text(*error),
{
    error.to_string()
}

/// The message of an error.
pub open spec fn error_text(error: Error) -> Seq<char> {
    match error {
        Error::BadValue(name, value) => "unexpected value type "@ + name@ + ": "@ + json_text(
            value,
        ),
        Error::TypeError(cause) => "type error "@ + type_error_text(cause),
        Error::UnexpectedFormat(what) =>
            "unexpected or unhandled format in the OpenAPI document "@ + what@,
        Error::InvalidPath(path) => "invalid operation path "@ + path@,
        Error::InvalidExtension(what) => "invalid dropshot extension use: "@ + what@,
        Error::InternalError(what) => "internal error "@ + what@,
    }
}

impl Error {
    /// The message of the error.
    pub fn to_string(&self) -> (text: String)
        ensures
            text@ == error_text(*self),
    {
        match self {
            Error::BadValue(name, value) => {
                let text = "unexpected value type ".to_owned();
                text.concat(name.as_str()).concat(": ").concat(value_text(value).as_str())
            },
            Error::TypeError(cause) => {
                "type error ".to_owned().concat(typify_text(cause).as_str())
            },
            Error::UnexpectedFormat(what) => {
                let text = "unexpected or unhandled format in the OpenAPI document ".to_owned();
                text.concat(what.as_str())
            },
            Error::InvalidPath(path) => {
                "invalid operation path ".to_owned().concat(path.as_str())
            },
            Error::InvalidExtension(what) => {
                "invalid dropshot extension use: ".to_owned().concat(what.as_str())
            },
            Error::InternalError(what) => "internal error ".to_owned().concat(what.as_str()),
        }
    }
}

impl From<TypifyError> for Error {
    /// A refused schema is a type error.
    fn from(error: TypifyError) -> (result: Error) {
        Error::TypeError(error)
    }
}

impl vstd::std_specs::convert::FromSpecImpl<TypifyError> for Error {
    open spec fn obeys_from_spec() -> bool {
        true
    }

    open spec fn from_spec(error: TypifyError) -> Error {
        Error::TypeError(error)
    }
}

/// The message of every error of a kind is the same text with what is wrong behind
/// it; that of a bad value has its name and its JSON text behind two texts.
pub proof fn law_messages_are_uniform()
    ensures
        exists|a: Seq<char>, b: Seq<char>|
            #[trigger] uniform_bad_values(a, b),
        exists|a: Seq<char>| #[trigger] uniform_type_errors(a),
        exists|a: Seq<char>| #[trigger] uniform_formats(a),
        exists|a: Seq<char>| #[trigger] uniform_paths(a),
        exists|a: Seq<char>| #[trigger] uniform_extensions(a),
        exists|a: Seq<char>| #[trigger] uniform_internals(a),
{
    assert(uniform_bad_values("unexpected value type "@, ": "@));
    assert(uniform_type_errors("type error "@));
    assert(uniform_formats("unexpected or unhandled format in the OpenAPI document "@));
    assert(uniform_paths("invalid operation path "@));
    assert(uniform_extensions("invalid dropshot extension use: "@));
    assert(uniform_internals("internal error "@));
}

/// The message of every bad value has given texts in it.
pub open spec fn uniform_bad_values(a: Seq<char>, b: Seq<char>) -> bool {
    forall|name: String, value: Value| #[trigger]
        error_text(Error::BadValue(name, value)) == a + name@ + b + json_text(value)
}

/// The message of every type error begins with a given text.
pub open spec fn uniform_type_errors(a: Seq<char>) -> bool {
    forall|cause: TypifyError| #[trigger]
        error_text(Error::TypeError(cause)) == a + type_error_text(cause)
}

/// The message of every unexpected format begins with a given text.
pub open spec fn uniform_formats(a: Seq<char>) -> bool {
    forall|what: String| #[trigger] error_text(Error::UnexpectedFormat(what)) == a + what@
}

/// The message of every invalid path begins with a given text.
pub open spec fn uniform_paths(a: Seq<char>) -> bool {
    forall|what: String| #[trigger] error_text(Error::InvalidPath(what)) == a + what@
}

/// The message of every misused extension begins with a given text.
pub open spec fn uniform_extensions(a: Seq<char>) -> bool {
    forall|what: String| #[trigger] error_text(Error::InvalidExtension(what)) == a + what@
}

/// The message of every failure of the generator begins with a given text.
pub open spec fn uniform_internals(a: Seq<char>) -> bool {
    forall|what: String| #[trigger] error_text(Error::InternalError(what)) == a + what@
}

} // verus!
