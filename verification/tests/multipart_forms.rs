use proc_macro2::TokenStream;
use progenitor_impl::document::{
    Encoding, Info, MediaType, ObjectType, OpenAPI, Operation, PathItem, ReferenceOr, RequestBody,
    Schema, SchemaKind, StringFormat, StringType, Type, VariantOrUnknownOrEmpty,
};
use progenitor_impl::multipart::{form_parts, multipart_encodings, multipart_forms, PartKind};
use progenitor_impl::multipart_code::{
    form_code, is_multipart_ready, multipart_code, part_code, process_multipart_form,
    MultiPartParts,
};

fn parsed(text: &str) -> TokenStream {
    text.parse::<TokenStream>().unwrap()
}

fn string(format: VariantOrUnknownOrEmpty<StringFormat>) -> ReferenceOr<Schema> {
    ReferenceOr::Item(Schema {
        schema_kind: SchemaKind::Type(Type::String(StringType { format })),
    })
}

fn binary() -> ReferenceOr<Schema> {
    string(VariantOrUnknownOrEmpty::Item(StringFormat::Binary))
}

fn date() -> ReferenceOr<Schema> {
    string(VariantOrUnknownOrEmpty::Item(StringFormat::Date))
}

fn object(properties: Vec<(&str, ReferenceOr<Schema>)>) -> Option<ReferenceOr<Schema>> {
    let properties = properties
        .into_iter()
        .map(|(name, property)| (name.to_string(), property))
        .collect();
    Some(ReferenceOr::Item(Schema {
        schema_kind: SchemaKind::Type(Type::Object(ObjectType { properties })),
    }))
}

fn encodings(pairs: Vec<(&str, Option<&str>)>) -> Vec<(String, Encoding)> {
    pairs
        .into_iter()
        .map(|(name, content_type)| {
            let content_type = content_type.map(|text| text.to_string());
            (name.to_string(), Encoding { content_type })
        })
        .collect()
}

fn form(schema: Option<ReferenceOr<Schema>>, encoding: Vec<(String, Encoding)>) -> MediaType {
    MediaType { schema, encoding }
}

fn posting(id: Option<&str>, content: Vec<(&str, MediaType)>) -> Operation {
    let content = content
        .into_iter()
        .map(|(name, media_type)| (name.to_string(), media_type))
        .collect();
    Operation {
        operation_id: id.map(|id| id.to_string()),
        request_body: Some(ReferenceOr::Item(RequestBody { content })),
    }
}

fn document(operations: Vec<Operation>) -> OpenAPI {
    let paths = operations
        .into_iter()
        .enumerate()
        .map(|(i, operation)| {
            let item = PathItem {
                get: None,
                put: None,
                post: Some(operation),
                delete: None,
                options: None,
                head: None,
                patch: None,
                trace: None,
            };
            (format!("/{}", i), ReferenceOr::Item(item))
        })
        .collect();
    OpenAPI {
        openapi: "3.0.3".to_string(),
        info: Info {
            title: "Test".to_string(),
            description: None,
            terms_of_service: None,
            version: "1.0".to_string(),
        },
        paths,
        components: None,
        tags: Vec::new(),
    }
}

fn upload(id: &str) -> Operation {
    posting(
        Some(id),
        vec![(
            "multipart/form-data",
            form(
                object(vec![("metadata", binary()), ("day", date())]),
                encodings(vec![
                    ("metadata", Some("application/x-protobuf")),
                    ("day", Some("text/plain")),
                ]),
            ),
        )],
    )
}

#[test]
fn new_part_is_empty() {
    let part = MultiPartParts::new();
    assert_eq!(part.name, "");
    assert_eq!(part.content_type, "");
    assert!(!part.binary);
}

#[test]
fn forms_are_named_after_their_operations() {
    let spec = document(vec![
        upload("uploadThings"),
        posting(Some("other"), vec![("application/json", form(None, Vec::new()))]),
        posting(None, vec![("multipart/form-data", form(None, Vec::new()))]),
        upload("Second"),
        upload("_third"),
    ]);
    let forms = multipart_forms(&spec);
    let names: Vec<&str> = forms.iter().map(|form| form.name.as_str()).collect();
    assert_eq!(names, vec!["UploadThingsBody", "SecondBody", "_thirdBody"]);
}

#[test]
fn parts_know_kind_and_content_type() {
    let spec = document(vec![upload("upload")]);
    let parts = form_parts(&spec);
    assert_eq!(parts.len(), 2);
    assert_eq!(parts[0].form, "UploadBody");
    assert_eq!(parts[0].name, "metadata");
    assert_eq!(parts[0].kind, Some(PartKind::Bytes));
    assert_eq!(parts[0].content_type.as_deref(), Some("application/x-protobuf"));
    assert_eq!(parts[1].name, "day");
    assert_eq!(parts[1].kind, Some(PartKind::Text));
    assert_eq!(parts[1].content_type.as_deref(), Some("text/plain"));
}

#[test]
fn kinds_that_are_not_known() {
    let reference = ReferenceOr::Reference {
        reference: "#/components/schemas/X".to_string(),
    };
    let number = ReferenceOr::Item(Schema {
        schema_kind: SchemaKind::Type(Type::Other),
    });
    let any_of = ReferenceOr::Item(Schema {
        schema_kind: SchemaKind::Other,
    });
    let spec = document(vec![posting(
        Some("upload"),
        vec![(
            "multipart/form-data",
            form(
                object(vec![
                    ("a", reference),
                    ("b", number),
                    ("c", any_of),
                    ("d", string(VariantOrUnknownOrEmpty::Empty)),
                    ("e", string(VariantOrUnknownOrEmpty::Unknown("x".to_string()))),
                    ("f", string(VariantOrUnknownOrEmpty::Item(StringFormat::Password))),
                ]),
                encodings(vec![("a", None), ("g", Some("text/csv"))]),
            ),
        )],
    )]);
    let parts = form_parts(&spec);
    let seen: Vec<(&str, Option<PartKind>, Option<&str>)> = parts
        .iter()
        .map(|part| (part.name.as_str(), part.kind, part.content_type.as_deref()))
        .collect();
    assert_eq!(
        seen,
        vec![
            ("a", None, None),
            ("b", None, None),
            ("c", None, None),
            ("d", None, None),
            ("e", None, None),
            ("f", Some(PartKind::Text), None),
            ("g", None, Some("text/csv")),
        ],
    );
    assert!(!is_multipart_ready(&spec));
}

#[test]
fn last_schema_and_last_encoding_count() {
    // Both operations share the name of their body type.
    let first = posting(
        Some("upload"),
        vec![(
            "multipart/form-data",
            form(
                object(vec![("x", binary()), ("y", binary())]),
                encodings(vec![("x", Some("a/a")), ("y", Some("b/b"))]),
            ),
        )],
    );
    let second = posting(
        Some("Upload"),
        vec![(
            "multipart/form-data",
            form(
                object(vec![("x", date())]),
                encodings(vec![("x", Some("c/c"))]),
            ),
        )],
    );
    let spec = document(vec![first, second]);
    let parts = form_parts(&spec);
    assert_eq!(parts.len(), 2);
    assert_eq!(parts[0].name, "x");
    assert_eq!(parts[0].kind, Some(PartKind::Text));
    assert_eq!(parts[0].content_type.as_deref(), Some("c/c"));
    assert_eq!(parts[1].name, "y");
    assert_eq!(parts[1].kind, Some(PartKind::Bytes));
    assert_eq!(parts[1].content_type.as_deref(), Some("b/b"));
    assert!(parts.iter().all(|part| part.form == "UploadBody"));
}

#[test]
fn encodings_are_listed() {
    let spec = document(vec![
        upload("one"),
        posting(
            None,
            vec![(
                "multipart/form-data",
                form(None, encodings(vec![("p", None), ("q", Some("image/png"))])),
            )],
        ),
    ]);
    let pair = |a: &str, b: &str| (a.to_string(), b.to_string());
    assert_eq!(
        multipart_encodings(&spec),
        vec![
            pair("metadata", "application/x-protobuf"),
            pair("day", "text/plain"),
            pair("q", "image/png"),
        ],
    );
}

#[test]
fn code_of_one_part() {
    let mut part = MultiPartParts::new();
    part.name = "meta\"data".to_string();
    part.content_type = "text/plain".to_string();
    assert_eq!(
        part_code(&part, parsed("meta")).to_string(),
        parsed(
            "let meta = reqwest::multipart::Part::text(self.meta.clone()).mime_str(\"text/plain\")? ; \
             form = form.part(\"meta\\\"data\", meta);"
        )
        .to_string(),
    );
    part.binary = true;
    assert!(part_code(&part, parsed("meta")).to_string().contains("Part :: bytes (self . meta . clone ())"));
}

#[test]
fn code_of_one_form() {
    assert_eq!(
        form_code(parsed("XBody"), parsed("a; b;")).to_string(),
        parsed(
            "impl XBody { pub fn into_multipart(self) -> Result<reqwest::multipart::Form, reqwest::Error> { \
             let mut form = reqwest::multipart::Form::new(); a; b; Ok(form) } }"
        )
        .to_string(),
    );
}

#[test]
fn code_of_a_document() {
    let spec = document(vec![upload("upload"), upload("other")]);
    assert!(is_multipart_ready(&spec));
    let one = |name: &str| {
        format!(
            "impl {} {{ pub fn into_multipart(self) -> Result<reqwest::multipart::Form, reqwest::Error> {{ \
             let mut form = reqwest::multipart::Form::new(); \
             let metadata = reqwest::multipart::Part::bytes(self.metadata.clone()).mime_str(\"application/x-protobuf\")? ; \
             form = form.part(\"metadata\", metadata); \
             let day = reqwest::multipart::Part::text(self.day.clone()).mime_str(\"text/plain\")? ; \
             form = form.part(\"day\", day); \
             Ok(form) }} }} ",
            name,
        )
    };
    let expected = parsed(&(one("UploadBody") + &one("OtherBody"))).to_string();
    assert_eq!(process_multipart_form(&spec).unwrap().to_string(), expected);
    // The same, with the names as code given.
    let parts = form_parts(&spec);
    let codes = vec![parsed("metadata"), parsed("day"), parsed("metadata"), parsed("day")];
    let forms = vec![parsed("UploadBody"), parsed("OtherBody")];
    assert_eq!(multipart_code(&parts, &codes, &forms).to_string(), expected);
}

#[test]
fn document_without_forms_needs_no_code() {
    let spec = document(vec![posting(
        Some("plain"),
        vec![("application/json", form(None, Vec::new()))],
    )]);
    assert_eq!(process_multipart_form(&spec).unwrap().to_string(), "");
    // A form without parts gets no method either.
    let spec = document(vec![posting(
        Some("empty"),
        vec![("multipart/form-data", form(None, Vec::new()))],
    )]);
    assert_eq!(process_multipart_form(&spec).unwrap().to_string(), "");
}

#[test]
fn what_cannot_be_rendered() {
    // No content type.
    let spec = document(vec![posting(
        Some("upload"),
        vec![("multipart/form-data", form(object(vec![("x", binary())]), Vec::new()))],
    )]);
    assert!(!is_multipart_ready(&spec));
    // A string without a format.
    let spec = document(vec![posting(
        Some("upload"),
        vec![(
            "multipart/form-data",
            form(
                object(vec![("x", string(VariantOrUnknownOrEmpty::Empty))]),
                encodings(vec![("x", Some("text/plain"))]),
            ),
        )],
    )]);
    assert!(!is_multipart_ready(&spec));
    // An encoding without a property.
    let spec = document(vec![posting(
        Some("upload"),
        vec![(
            "multipart/form-data",
            form(object(Vec::new()), encodings(vec![("z", Some("text/plain"))])),
        )],
    )]);
    assert!(!is_multipart_ready(&spec));
    // An identifier whose first character cannot be made a capital by itself.
    let spec = document(vec![posting(
        Some("\u{e9}tat"),
        vec![("application/json", form(None, Vec::new()))],
    )]);
    assert!(!is_multipart_ready(&spec));
    // Without a request body the identifier does not matter.
    let mut operation = posting(Some("\u{e9}tat"), Vec::new());
    operation.request_body = None;
    assert!(is_multipart_ready(&document(vec![operation])));
}

#[test]
fn what_cannot_be_read() {
    // A name that is no Rust.
    let spec = document(vec![posting(
        Some("upload"),
        vec![(
            "multipart/form-data",
            form(object(vec![("x\"", binary())]), encodings(vec![("x\"", Some("a/b"))])),
        )],
    )]);
    assert!(is_multipart_ready(&spec));
    assert!(process_multipart_form(&spec).is_none());
}

#[test]
fn names_are_read_as_code() {
    // A name need not be an identifier, as long as it can be read.
    let spec = document(vec![posting(
        Some("up"),
        vec![(
            "multipart/form-data",
            form(object(vec![("a-b", binary())]), encodings(vec![("a-b", Some("c/d"))])),
        )],
    )]);
    let text = process_multipart_form(&spec).unwrap().to_string();
    assert!(text.contains("let a - b ="));
    assert!(text.contains("form . part (\"a-b\" , a - b)"));
}
