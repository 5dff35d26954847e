use progenitor_impl::Error;

#[test]
fn test_bad_value() {
    assert_eq!(
        Error::BadValue(
            "nope".to_string(),
            serde_json::Value::String("nope".to_string()),
        )
        .to_string(),
        "unexpected value type nope: \"nope\"",
    );
}

#[test]
fn test_type_error() {
    assert_eq!(
        Error::UnexpectedFormat("nope".to_string()).to_string(),
        "unexpected or unhandled format in the OpenAPI document nope",
    );
}

#[test]
fn test_invalid_path() {
    assert_eq!(
        Error::InvalidPath("nope".to_string()).to_string(),
        "invalid operation path nope",
    );
}

#[test]
fn test_internal_error() {
    assert_eq!(
        Error::InternalError("nope".to_string()).to_string(),
        "internal error nope",
    );
}

#[test]
fn invalid_extension_message() {
    assert_eq!(
        Error::InvalidExtension("nope".to_string()).to_string(),
        "invalid dropshot extension use: nope",
    );
}

#[test]
fn bad_value_shows_compact_json() {
    let value: serde_json::Value = serde_json::from_str("{ \"a\" : [ 1 , true ] }").unwrap();
    assert_eq!(
        Error::BadValue("object".to_string(), value).to_string(),
        "unexpected value type object: {\"a\":[1,true]}",
    );
}

#[test]
fn refused_schema_becomes_type_error() {
    let error = Error::from(typify::Error::InvalidTypeId);
    assert!(matches!(error, Error::TypeError(typify::Error::InvalidTypeId)));
    assert_eq!(error.to_string(), "type error invalid TypeId");
}
