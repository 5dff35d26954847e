use progenitor_impl::document::{
    Info, OpenAPI, Operation, PathItem, ReferenceOr,
};
use progenitor_impl::{validate_openapi, Error};

fn operation(id: Option<&str>) -> Option<Operation> {
    Some(Operation {
        operation_id: id.map(|id| id.to_string()),
        request_body: None,
    })
}

fn empty_item() -> PathItem {
    PathItem {
        get: None,
        put: None,
        post: None,
        delete: None,
        options: None,
        head: None,
        patch: None,
        trace: None,
    }
}

fn document(version: &str, paths: Vec<(&str, ReferenceOr<PathItem>)>) -> OpenAPI {
    OpenAPI {
        openapi: version.to_string(),
        info: Info {
            title: "Test".to_string(),
            description: None,
            terms_of_service: None,
            version: "1.0".to_string(),
        },
        paths: paths
            .into_iter()
            .map(|(path, item)| (path.to_string(), item))
            .collect(),
        components: None,
        tags: Vec::new(),
    }
}

fn complaint(spec: &OpenAPI) -> String {
    match validate_openapi(spec) {
        Err(Error::UnexpectedFormat(what)) => what,
        Err(_) => panic!("another error"),
        Ok(()) => panic!("no error"),
    }
}

#[test]
fn supported_versions_pass() {
    for version in ["3.0.0", "3.0.1", "3.0.2", "3.0.3"] {
        assert!(validate_openapi(&document(version, Vec::new())).is_ok());
    }
}

#[test]
fn other_versions_are_refused() {
    for version in ["", "3.0", "3.0.4", "3.1.0", "2.0", "3.0.0 "] {
        assert_eq!(
            complaint(&document(version, Vec::new())),
            format!("invalid version: {}", version),
        );
    }
}

#[test]
fn referenced_path_is_refused() {
    let reference = ReferenceOr::Reference {
        reference: "other.json".to_string(),
    };
    assert_eq!(
        complaint(&document("3.0.3", vec![("/a", reference)])),
        "path /a uses reference, unsupported",
    );
}

#[test]
fn missing_identifier_is_refused() {
    let item = PathItem {
        post: operation(None),
        ..empty_item()
    };
    assert_eq!(
        complaint(&document("3.0.3", vec![("/a", ReferenceOr::Item(item))])),
        "path /a is missing operation ID",
    );
}

#[test]
fn repeated_identifier_is_refused() {
    let one_path = PathItem {
        get: operation(Some("same")),
        trace: operation(Some("same")),
        ..empty_item()
    };
    assert_eq!(
        complaint(&document("3.0.3", vec![("/a", ReferenceOr::Item(one_path))])),
        "duplicate operation ID: same",
    );
    let first = PathItem {
        get: operation(Some("same")),
        ..empty_item()
    };
    let second = PathItem {
        put: operation(Some("same")),
        ..empty_item()
    };
    let spec = document(
        "3.0.3",
        vec![
            ("/a", ReferenceOr::Item(first)),
            ("/b", ReferenceOr::Item(second)),
        ],
    );
    assert_eq!(complaint(&spec), "duplicate operation ID: same");
}

#[test]
fn first_fault_is_reported() {
    let nameless = PathItem {
        get: operation(None),
        ..empty_item()
    };
    let reference = ReferenceOr::Reference {
        reference: "other.json".to_string(),
    };
    let spec = document(
        "3.0.3",
        vec![("/a", ReferenceOr::Item(nameless)), ("/b", reference)],
    );
    assert_eq!(complaint(&spec), "path /a is missing operation ID");
    // The version is looked at before anything else.
    let spec = OpenAPI {
        openapi: "9".to_string(),
        ..spec
    };
    assert_eq!(complaint(&spec), "invalid version: 9");
}

#[test]
fn methods_are_looked_at_in_order() {
    // Of one path, GET comes first and TRACE last, whatever comes between.
    let item = PathItem {
        get: operation(Some("a")),
        put: operation(Some("b")),
        post: operation(Some("c")),
        delete: operation(Some("d")),
        options: operation(Some("e")),
        head: operation(Some("f")),
        patch: operation(Some("g")),
        trace: operation(Some("h")),
    };
    let spec = document("3.0.0", vec![("/a", ReferenceOr::Item(item))]);
    assert!(validate_openapi(&spec).is_ok());
    let listed = spec.operations();
    let methods: Vec<&str> = listed.iter().map(|one| one.method).collect();
    assert_eq!(
        methods,
        vec!["get", "put", "post", "delete", "options", "head", "patch", "trace"],
    );
    let ids: Vec<&str> = listed
        .iter()
        .map(|one| one.operation.operation_id.as_deref().unwrap())
        .collect();
    assert_eq!(ids, vec!["a", "b", "c", "d", "e", "f", "g", "h"]);
    assert!(listed.iter().all(|one| one.path.as_str() == "/a"));
}

#[test]
fn distinct_identified_operations_pass() {
    let first = PathItem {
        get: operation(Some("a")),
        post: operation(Some("b")),
        ..empty_item()
    };
    let second = PathItem {
        get: operation(Some("A")),
        ..empty_item()
    };
    let spec = document(
        "3.0.1",
        vec![
            ("/a", ReferenceOr::Item(first)),
            ("/b", ReferenceOr::Item(empty_item())),
            ("/c", ReferenceOr::Item(second)),
        ],
    );
    assert!(validate_openapi(&spec).is_ok());
    assert_eq!(spec.operations().len(), 3);
}

#[test]
fn referenced_path_lists_no_operation() {
    let reference = ReferenceOr::Reference {
        reference: "other.json".to_string(),
    };
    assert!(reference.as_item().is_none());
    let spec = document("3.0.3", vec![("/a", reference)]);
    assert!(spec.operations().is_empty());
}
