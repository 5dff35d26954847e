use proc_macro2::TokenStream;
use progenitor_impl::client::{client_docstring, join_streams};
use progenitor_impl::document::{
    Components, Encoding, Info, MediaType, ObjectType, OpenAPI, Operation, PathItem, ReferenceOr,
    RequestBody, Schema, SchemaKind, StringFormat, StringType, Tag, Type,
    VariantOrUnknownOrEmpty,
};
use progenitor_impl::operations::process_operations;
use progenitor_impl::{Error, GenerationSettings, Generator, InterfaceStyle, TagStyle, Work};
use typify::{TypeSpace, TypeSpaceSettings};

fn parsed(text: &str) -> TokenStream {
    text.parse::<TokenStream>().unwrap()
}

fn info() -> Info {
    Info {
        title: "Things".to_string(),
        description: None,
        terms_of_service: None,
        version: "1.2.3".to_string(),
    }
}

fn item(operations: Vec<&str>) -> ReferenceOr<PathItem> {
    let mut operations = operations.into_iter().map(|id| Operation {
        operation_id: Some(id.to_string()),
        request_body: None,
    });
    ReferenceOr::Item(PathItem {
        get: operations.next(),
        put: operations.next(),
        post: None,
        delete: None,
        options: None,
        head: None,
        patch: None,
        trace: None,
    })
}

fn document() -> OpenAPI {
    OpenAPI {
        openapi: "3.0.3".to_string(),
        info: info(),
        paths: vec![
            ("/a".to_string(), item(vec!["first"])),
            ("/b".to_string(), item(vec!["second"])),
        ],
        components: None,
        tags: Vec::new(),
    }
}

fn bare_document() -> OpenAPI {
    OpenAPI { paths: Vec::new(), ..document() }
}

fn schema(text: &str) -> schemars::schema::Schema {
    serde_json::from_str(text).unwrap()
}

const ITEMS: [&str; 3] = ["one", "two", "three"];

const METHODS: [&str; 3] = ["fn a() {}", "fn b() {}", "fn c() {}"];

/// Generates a client in which every operation is written as a word.
fn generate(generator: &mut Generator, spec: &OpenAPI) -> Option<Result<TokenStream, Error>> {
    generator.try_generate_tokens(
        spec,
        (),
        |work, i| (work, Ok(i)),
        |work, i, _, _| (work, Ok(parsed(ITEMS[*i]))),
        |work, i| (work, parsed(METHODS[*i])),
        |work, all, _| {
            assert_eq!(*all, (0..all.len()).collect::<Vec<usize>>());
            (work, (parsed("trait T {}"), parsed("pub use super::T;")))
        },
    )
}

/// Generates a client with the failures of the given operations, and lists the
/// calls that were made.
fn generate_with_failures(
    generator: &mut Generator,
    spec: &OpenAPI,
    unreadable: &[usize],
    unwritable: &[usize],
) -> (Vec<String>, Option<Result<TokenStream, Error>>) {
    let calls = std::cell::RefCell::new(Vec::new());
    let result = generator.try_generate_tokens(
        spec,
        (),
        |work, i| {
            calls.borrow_mut().push(format!("read {}", i));
            if unreadable.contains(&i) {
                (work, Err(Error::InvalidPath(format!("{}", i))))
            } else {
                (work, Ok(i))
            }
        },
        |work, i, _, _| {
            calls.borrow_mut().push(format!("write {}", i));
            if unwritable.contains(i) {
                (work, Err(Error::InternalError(format!("{}", i))))
            } else {
                (work, Ok(parsed(ITEMS[*i])))
            }
        },
        |work, i| {
            calls.borrow_mut().push(format!("method {}", i));
            (work, parsed(METHODS[*i]))
        },
        |work, _, _| {
            calls.borrow_mut().push("tags".to_string());
            (work, (TokenStream::new(), TokenStream::new()))
        },
    );
    (calls.into_inner(), result)
}

fn settings(interface: InterfaceStyle, tag: TagStyle) -> GenerationSettings {
    let mut settings = GenerationSettings::new();
    settings.with_interface(interface).with_tag(tag);
    settings
}

fn builder_types() -> String {
    let mut settings = TypeSpaceSettings::default();
    settings.with_type_mod("types").with_struct_builder(true);
    TypeSpace::new(&settings).to_stream().to_string()
}

fn client(types: &str, multipart: &str, inner: Option<&str>, operations: &str) -> String {
    let property = inner.map(|t| format!("pub(crate) inner: {},", t)).unwrap_or_default();
    let parameter = inner.map(|t| format!("inner: {},", t)).unwrap_or_default();
    let value = inner.map(|_| "inner").unwrap_or_default();
    let method = inner
        .map(|t| {
            format!(
                "/// Return a reference to the inner type stored in `self`.\n\
                 pub fn inner(&self) -> &{} {{ &self.inner }}",
                t,
            )
        })
        .unwrap_or_default();
    let text = format!(
        r##"
            #[allow(unused_imports)]
            pub use progenitor_client::{{ByteStream, Error, ResponseValue}};
            #[allow(unused_imports)]
            use progenitor_client::{{encode_path, RequestBuilderExt}};
            #[allow(unused_imports)]
            use reqwest::header::{{HeaderMap, HeaderValue}};

            /// Types used as operation parameters and responses.
            #[allow(clippy::all)]
            pub mod types {{
                {types}
                {multipart}
            }}

            #[derive(Clone, Debug)]
            #[doc = "Client for Things\n\nVersion: 1.2.3"]
            pub struct Client {{
                pub(crate) baseurl: String,
                pub(crate) client: reqwest::Client,
                {property}
            }}

            impl Client {{
                /// Create a new client.
                ///
                /// `baseurl` is the base URL provided to the internal
                /// `reqwest::Client`, and should include a scheme and hostname,
                /// as well as port and a path stem if applicable.
                pub fn new(
                    baseurl: &str,
                    {parameter}
                ) -> Self {{
                    #[cfg(not(target_arch = "wasm32"))]
                    let client = {{
                        let dur = std::time::Duration::from_secs(15);

                        reqwest::ClientBuilder::new()
                            .connect_timeout(dur)
                            .timeout(dur)
                    }};
                    #[cfg(target_arch = "wasm32")]
                    let client = reqwest::ClientBuilder::new();

                    Self::new_with_client(baseurl, client.build().unwrap(), {value})
                }}

                /// Construct a new client with an existing `reqwest::Client`,
                /// allowing more control over its configuration.
                ///
                /// `baseurl` is the base URL provided to the internal
                /// `reqwest::Client`, and should include a scheme and hostname,
                /// as well as port and a path stem if applicable.
                pub fn new_with_client(
                    baseurl: &str,
                    client: reqwest::Client,
                    {parameter}
                ) -> Self {{
                    Self {{
                        baseurl: baseurl.to_string(),
                        client,
                        {value}
                    }}
                }}

                /// Get the base URL to which requests are made.
                pub fn baseurl(&self) -> &String {{
                    &self.baseurl
                }}

                /// Get the internal `reqwest::Client` used to make requests.
                pub fn client(&self) -> &reqwest::Client {{
                    &self.client
                }}

                /// Get the version of this API.
                ///
                /// This string is pulled directly from the source OpenAPI
                /// document and may be in any format the API selects.
                pub fn api_version(&self) -> & 'static str {{
                    "1.2.3"
                }}

                {method}
            }}

            {operations}
        "##
    );
    parsed(&with_raw_docs(&text)).to_string()
}

/// Lines of documentation are raw strings in the generated code.
fn with_raw_docs(text: &str) -> String {
    text.lines()
        .map(|line| match line.trim_start().strip_prefix("///") {
            Some(doc) => format!("#[doc = r\"{}\"]\n", doc),
            None => format!("{}\n", line),
        })
        .collect()
}

const POSITIONAL: &str = r##"
    #[allow(clippy::all)]
    impl Client { one two }

    /// Items consumers will typically use such as the Client.
    pub mod prelude {
        #[allow(unused_imports)]
        pub use super::Client;
    }
"##;

const BUILDER: &str = r##"
    /// Types for composing operation parameters.
    #[allow(clippy::all)]
    pub mod builder {
        use super::types;
        #[allow(unused_imports)]
        use super::{
            encode_path,
            ByteStream,
            Error,
            HeaderMap,
            HeaderValue,
            RequestBuilderExt,
            ResponseValue,
        };

        one two
    }
"##;

#[test]
fn docstring_of_a_client() {
    assert_eq!(client_docstring(&info()), "Client for Things\n\nVersion: 1.2.3");
    let full = Info {
        title: "A".to_string(),
        description: Some("B".to_string()),
        terms_of_service: Some("C".to_string()),
        version: "D".to_string(),
    };
    assert_eq!(client_docstring(&full), "Client for A\n\nB\n\nC\n\nVersion: D");
    let terms = Info { description: None, ..full };
    assert_eq!(client_docstring(&terms), "Client for A\n\nC\n\nVersion: D");
}

#[test]
fn positional_client() {
    let mut generator = Generator::default();
    let stream = generate(&mut generator, &document()).unwrap().unwrap();
    let mut type_settings = TypeSpaceSettings::default();
    type_settings.with_type_mod("types");
    let types = TypeSpace::new(&type_settings).to_stream().to_string();
    assert_eq!(stream.to_string(), client(&types, "", None, POSITIONAL));
}

#[test]
fn merged_builder_client() {
    let mut generator = Generator::new(&settings(InterfaceStyle::Builder, TagStyle::Merged));
    let stream = generate(&mut generator, &document()).unwrap().unwrap();
    let operations = format!(
        "impl Client {{ fn a() {{}} fn b() {{}} }} {} \
         /// Items consumers will typically use such as the Client.\n\
         pub mod prelude {{ pub use self::super::Client; }}",
        BUILDER,
    );
    assert_eq!(stream.to_string(), client(&builder_types(), "", None, &operations));
}

#[test]
fn separate_builder_client_with_inner_type() {
    let mut settings = settings(InterfaceStyle::Builder, TagStyle::Separate);
    settings.with_inner_type(parsed("crate::Inner"));
    let mut generator = Generator::new(&settings);
    let stream = generate(&mut generator, &document()).unwrap().unwrap();
    let operations = format!(
        "trait T {{}} {} \
         /// Items consumers will typically use such as the Client and\n\
         /// extension traits.\n\
         pub mod prelude {{ #[allow(unused_imports)] pub use super::Client; pub use super::T; }}",
        BUILDER,
    );
    assert_eq!(
        stream.to_string(),
        client(&builder_types(), "", Some("crate::Inner"), &operations),
    );
}

#[test]
fn operations_come_in_document_order() {
    let spec = OpenAPI {
        paths: vec![
            ("/z".to_string(), item(vec!["c", "a"])),
            ("/y".to_string(), item(Vec::new())),
            ("/x".to_string(), item(vec!["b"])),
        ],
        ..document()
    };
    let mut generator = Generator::default();
    let (calls, result) = generate_with_failures(&mut generator, &spec, &[], &[]);
    assert_eq!(
        calls,
        vec!["read 0", "read 1", "read 2", "write 0", "write 1", "write 2"],
    );
    assert!(result.unwrap().unwrap().to_string().contains("impl Client { one two three }"));
    let ids: Vec<String> = spec
        .operations()
        .iter()
        .map(|one| one.operation.operation_id.clone().unwrap())
        .collect();
    assert_eq!(ids, vec!["c", "a", "b"]);
}

#[test]
fn styles_are_handed_to_the_items() {
    for (interface, tag) in [
        (InterfaceStyle::Positional, TagStyle::Merged),
        (InterfaceStyle::Builder, TagStyle::Merged),
        (InterfaceStyle::Builder, TagStyle::Separate),
    ] {
        let mut generator = Generator::new(&settings(interface, tag));
        let result = generator.generate_tokens(
            &document(),
            (),
            |work, i| (work, Ok(i)),
            |work, _, given, given_tag| {
                assert_eq!((given, given_tag), (interface, tag));
                (work, Ok(TokenStream::new()))
            },
            |work, _| (work, TokenStream::new()),
            |work, _, _| (work, (TokenStream::new(), TokenStream::new())),
        );
        assert!(matches!(result, Some(Ok(_))));
    }
}

#[test]
fn forms_stand_among_the_types() {
    let binary = ReferenceOr::Item(Schema {
        schema_kind: SchemaKind::Type(Type::String(StringType {
            format: VariantOrUnknownOrEmpty::Item(StringFormat::Binary),
        })),
    });
    let form = MediaType {
        schema: Some(ReferenceOr::Item(Schema {
            schema_kind: SchemaKind::Type(Type::Object(ObjectType {
                properties: vec![("x".to_string(), binary)],
            })),
        })),
        encoding: vec![(
            "x".to_string(),
            Encoding { content_type: Some("a/b".to_string()) },
        )],
    };
    let operation = Operation {
        operation_id: Some("up".to_string()),
        request_body: Some(ReferenceOr::Item(RequestBody {
            content: vec![("multipart/form-data".to_string(), form)],
        })),
    };
    let item = PathItem {
        get: None,
        put: None,
        post: Some(operation),
        delete: None,
        options: None,
        head: None,
        patch: None,
        trace: None,
    };
    let spec = OpenAPI {
        paths: vec![("/x".to_string(), ReferenceOr::Item(item))],
        ..document()
    };
    let mut generator = Generator::new(&GenerationSettings::new());
    let stream = generate(&mut generator, &spec).unwrap().unwrap();
    let types = generator.get_type_space().to_stream().to_string();
    let multipart = "impl UpBody { pub fn into_multipart(self) -> Result<reqwest::multipart::Form, reqwest::Error> { \
        let mut form = reqwest::multipart::Form::new(); \
        let x = reqwest::multipart::Part::bytes(self.x.clone()).mime_str(\"a/b\")? ; \
        form = form.part(\"x\", x); Ok(form) } }";
    let operations = POSITIONAL.replace("one two", "one");
    assert_eq!(stream.to_string(), client(&types, multipart, None, &operations));
}

#[test]
fn nothing_comes_of_an_unsupported_style() {
    let unsupported = || Generator::new(&settings(InterfaceStyle::Positional, TagStyle::Separate));
    assert!(generate(&mut unsupported(), &document()).is_none());
    // What fails before it comes to the style is reported all the same.
    let spec = OpenAPI { openapi: "2".to_string(), ..document() };
    assert!(matches!(
        generate(&mut unsupported(), &spec),
        Some(Err(Error::UnexpectedFormat(_))),
    ));
    let spec = OpenAPI {
        components: Some(Components {
            schemas: vec![("Thing".to_string(), schema("{\"type\":\"string\",\"enum\":[]}"))],
        }),
        ..document()
    };
    assert!(matches!(
        generate(&mut unsupported(), &spec),
        Some(Err(Error::TypeError(_))),
    ));
    let (_, result) = generate_with_failures(&mut unsupported(), &document(), &[1], &[]);
    assert!(matches!(result, Some(Err(Error::InvalidPath(which))) if which == "1"));
}

#[test]
fn nothing_comes_of_a_form_without_content_type() {
    let form = MediaType {
        schema: None,
        encoding: vec![(
            "x".to_string(),
            Encoding { content_type: Some("a/b".to_string()) },
        )],
    };
    let operation = Operation {
        operation_id: Some("up".to_string()),
        request_body: Some(ReferenceOr::Item(RequestBody {
            content: vec![("multipart/form-data".to_string(), form)],
        })),
    };
    let mut spec = document();
    spec.paths.push((
        "/c".to_string(),
        ReferenceOr::Item(PathItem {
            get: Some(operation),
            put: None,
            post: None,
            delete: None,
            options: None,
            head: None,
            patch: None,
            trace: None,
        }),
    ));
    let (calls, result) = generate_with_failures(&mut Generator::default(), &spec, &[], &[]);
    assert!(result.is_none());
    assert_eq!(calls, vec!["read 0", "read 1", "read 2"]);
}

#[test]
fn refused_document_changes_nothing() {
    let mut generator = Generator::default();
    let before = generator.get_type_space().to_stream().to_string();
    let spec = OpenAPI {
        openapi: "2".to_string(),
        components: Some(Components {
            schemas: vec![("Thing".to_string(), schema("{\"type\":\"object\"}"))],
        }),
        ..document()
    };
    let (calls, result) = generate_with_failures(&mut generator, &spec, &[], &[]);
    match result {
        Some(Err(Error::UnexpectedFormat(what))) => assert_eq!(what, "invalid version: 2"),
        _ => panic!("not refused"),
    }
    assert!(calls.is_empty());
    assert_eq!(generator.get_type_space().to_stream().to_string(), before);
    assert!(!generator.uses_futures());
    assert!(!generator.uses_websockets());
}

#[test]
fn components_become_types() {
    let mut generator = Generator::default();
    let spec = OpenAPI {
        components: Some(Components {
            schemas: vec![(
                "Thing".to_string(),
                schema("{\"type\":\"object\",\"properties\":{\"size\":{\"type\":\"string\"}}}"),
            )],
        }),
        ..document()
    };
    let stream = generator
        .generate_tokens(
            &spec,
            (),
            |work: Work<()>, i| {
                // The types of the components are there before operations are read.
                assert!(work.type_space.to_stream().to_string().contains("pub struct Thing"));
                (work, Ok(i))
            },
            |work, _, _, _| (work, Ok(TokenStream::new())),
            |work, _| (work, TokenStream::new()),
            |work, _, _| (work, (TokenStream::new(), TokenStream::new())),
        )
        .unwrap()
        .unwrap();
    assert!(stream.to_string().contains("pub struct Thing"));
    assert!(generator.get_type_space().to_stream().to_string().contains("pub struct Thing"));
}

#[test]
fn registering_components_alone() {
    let mut generator = Generator::default();
    let spec = OpenAPI {
        components: Some(Components {
            schemas: vec![("Name".to_string(), schema("{\"type\":\"string\"}"))],
        }),
        ..document()
    };
    assert!(generator.register_components(&spec).is_ok());
    assert!(generator.get_type_space().to_stream().to_string().contains("pub struct Name"));
}

#[test]
fn refused_schema_is_a_type_error() {
    let mut generator = Generator::default();
    let spec = OpenAPI {
        components: Some(Components {
            schemas: vec![("Thing".to_string(), schema("{\"type\":\"string\",\"enum\":[]}"))],
        }),
        ..document()
    };
    let (calls, result) = generate_with_failures(&mut generator, &spec, &[], &[]);
    assert!(calls.is_empty());
    match result {
        Some(Err(Error::TypeError(typify::Error::InvalidSchema { reason, .. }))) => {
            assert_eq!(reason, "empty enum array");
        }
        _ => panic!("not refused"),
    }
}

#[test]
fn first_unreadable_operation_is_reported() {
    let mut spec = document();
    spec.paths.push(("/c".to_string(), item(vec!["third"])));
    let (calls, result) = generate_with_failures(&mut Generator::default(), &spec, &[1, 2], &[0]);
    assert!(matches!(result, Some(Err(Error::InvalidPath(which))) if which == "1"));
    assert_eq!(calls, vec!["read 0", "read 1"]);
}

#[test]
fn first_unwritable_operation_is_reported() {
    let mut spec = document();
    spec.paths.push(("/c".to_string(), item(vec!["third"])));
    for (interface, tag) in [
        (InterfaceStyle::Positional, TagStyle::Merged),
        (InterfaceStyle::Builder, TagStyle::Merged),
        (InterfaceStyle::Builder, TagStyle::Separate),
    ] {
        let mut generator = Generator::new(&settings(interface, tag));
        let (calls, result) = generate_with_failures(&mut generator, &spec, &[], &[1, 2]);
        assert!(matches!(result, Some(Err(Error::InternalError(which))) if which == "1"));
        assert_eq!(calls, vec!["read 0", "read 1", "read 2", "write 0", "write 1"]);
    }
}

#[test]
fn builders_come_before_their_methods() {
    let mut generator = Generator::new(&settings(InterfaceStyle::Builder, TagStyle::Merged));
    let (calls, result) = generate_with_failures(&mut generator, &document(), &[], &[]);
    assert!(matches!(result, Some(Ok(_))));
    assert_eq!(
        calls,
        vec!["read 0", "read 1", "write 0", "write 1", "method 0", "method 1"],
    );
    let mut generator = Generator::new(&settings(InterfaceStyle::Builder, TagStyle::Separate));
    let (calls, _) = generate_with_failures(&mut generator, &document(), &[], &[]);
    assert_eq!(calls, vec!["read 0", "read 1", "write 0", "write 1", "tags"]);
}

#[test]
fn needs_add_up() {
    let run = |generator: &mut Generator, futures: bool, websockets: bool| {
        generator.generate_tokens(
            &document(),
            (),
            |work: Work<()>, i| {
                let work = Work {
                    uses_futures: work.uses_futures || (futures && i == 0),
                    uses_websockets: websockets && i == 1,
                    ..work
                };
                (work, Ok(i))
            },
            |work, i, _, _| (work, Ok(parsed(ITEMS[*i]))),
            |work, _| (work, TokenStream::new()),
            |work, _, _| (work, (TokenStream::new(), TokenStream::new())),
        )
    };
    let mut generator = Generator::default();
    assert!(!generator.uses_futures() && !generator.uses_websockets());
    assert!(run(&mut generator, true, false).is_some());
    assert!(generator.uses_futures() && !generator.uses_websockets());
    assert!(run(&mut generator, false, true).is_some());
    assert!(generator.uses_futures() && generator.uses_websockets());
    assert!(run(&mut generator, false, false).is_some());
    assert!(generator.uses_futures() && generator.uses_websockets());
}

#[test]
fn types_of_operations_are_kept() {
    let mut generator = Generator::default();
    let stream = generator
        .generate_tokens(
            &document(),
            (),
            |work: Work<()>, i| {
                let mut work = work;
                let name = format!("Extra{}", i);
                work.type_space
                    .add_ref_types(vec![(name, schema("{\"type\":\"string\"}"))])
                    .unwrap();
                (work, Ok(i))
            },
            |work, _, _, _| (work, Ok(TokenStream::new())),
            |work, _| (work, TokenStream::new()),
            |work, _, _| (work, (TokenStream::new(), TokenStream::new())),
        )
        .unwrap()
        .unwrap();
    for name in ["pub struct Extra0", "pub struct Extra1"] {
        assert!(stream.to_string().contains(name));
        assert!(generator.get_type_space().to_stream().to_string().contains(name));
    }
}

#[test]
fn state_is_handed_from_call_to_call() {
    let start = Work {
        state: vec![10],
        type_space: TypeSpace::new(&TypeSpaceSettings::default()),
        uses_futures: false,
        uses_websockets: false,
    };
    let (work, read) = process_operations(&document(), start, |work: Work<Vec<usize>>, i| {
        let mut work = work;
        let length = work.state.len();
        work.state.push(i);
        (work, Ok(length))
    });
    assert_eq!(work.state, vec![10, 0, 1]);
    assert_eq!(read.unwrap(), vec![1, 2]);
    let start = Work { state: 0, ..first_work() };
    let (work, read) = process_operations(&bare_document(), start, |work, i| (work, Ok(i)));
    assert_eq!(work.state, 0);
    assert!(read.unwrap().is_empty());
}

fn first_work() -> Work<usize> {
    Work {
        state: 0,
        type_space: TypeSpace::new(&TypeSpaceSettings::default()),
        uses_futures: false,
        uses_websockets: false,
    }
}

#[test]
fn client_without_operations() {
    let mut generator = Generator::default();
    let text = generate(&mut generator, &bare_document()).unwrap().unwrap().to_string();
    assert!(text.contains("impl Client { }"));
}

#[test]
fn joined_code_keeps_order() {
    assert_eq!(join_streams(Vec::new()).to_string(), "");
    assert_eq!(join_streams(vec![parsed("x"), parsed("y z")]).to_string(), "x y z");
}

#[test]
fn version_is_written_as_a_literal() {
    let spec = OpenAPI {
        info: Info { version: "a\"b\\c".to_string(), ..info() },
        ..document()
    };
    let mut generator = Generator::default();
    let text = generate(&mut generator, &spec).unwrap().unwrap().to_string();
    assert!(text.contains("{ \"a\\\"b\\\\c\" }"));
    assert!(text.contains("Version: a\\\"b\\\\c\"]"));
}

#[test]
fn tags_are_handed_over_by_name() {
    let tag = |name: &str, description: &str| Tag {
        name: name.to_string(),
        description: Some(description.to_string()),
    };
    let spec = OpenAPI {
        tags: vec![tag("z", "1"), tag("a", "2"), tag("z", "3")],
        ..document()
    };
    let mut generator = Generator::new(&settings(InterfaceStyle::Builder, TagStyle::Separate));
    let result = generator.generate_tokens(
        &spec,
        (),
        |work, i| (work, Ok(i)),
        |work, i, _, _| (work, Ok(parsed(ITEMS[*i]))),
        |work, _| (work, TokenStream::new()),
        |work, methods, table| {
            assert_eq!(*methods, vec![0, 1]);
            let listed: Vec<(&str, &str)> = table
                .iter()
                .map(|tag| (tag.name.as_str(), tag.description.as_deref().unwrap()))
                .collect();
            assert_eq!(listed, vec![("a", "2"), ("z", "3")]);
            (work, (parsed("trait T {}"), TokenStream::new()))
        },
    );
    assert!(result.unwrap().unwrap().to_string().contains("trait T { }"));
}

#[test]
fn both_ways_to_generate_agree() {
    let mut generator = Generator::default();
    let stream = generator.generate_tokens(
        &document(),
        (),
        |work, i| (work, Ok(i)),
        |work, i, _, _| (work, Ok(parsed(ITEMS[*i]))),
        |work, _| (work, TokenStream::new()),
        |work, _, _| (work, (TokenStream::new(), TokenStream::new())),
    );
    assert_eq!(
        stream.unwrap().unwrap().to_string(),
        generate(&mut Generator::default(), &document()).unwrap().unwrap().to_string(),
    );
}
