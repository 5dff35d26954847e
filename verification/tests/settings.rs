use progenitor_impl::document::{Components, Info, OpenAPI};
use progenitor_impl::{
    CrateVers, GenerationSettings, Generator, InterfaceStyle, TagStyle, TypeImpl, TypePatch,
    UnknownPolicy,
};
use proc_macro2::TokenStream;

const THING: &str = "{\"type\":\"object\",\"required\":[\"blob\"],\"properties\":{\
    \"blob\":{\"type\":\"string\",\"format\":\"binary\"}}}";

const LINK: &str = "{\"type\":\"object\",\"required\":[\"to\"],\"properties\":{\
    \"to\":{\"$ref\":\"#/definitions/Thing\"}}}";

const FOREIGN: &str = "{\"type\":\"string\",\"x-rust-type\":{\
    \"crate\":\"some-crate\",\"version\":\"1.0.0\",\"path\":\"some_crate::Foreign\"}}";

const USER: &str = "{\"type\":\"object\",\"required\":[\"it\"],\"properties\":{\
    \"it\":{\"$ref\":\"#/definitions/Foreign\"}}}";

fn document(schemas: Vec<(&str, &str)>) -> OpenAPI {
    let schemas = schemas
        .into_iter()
        .map(|(name, text)| (name.to_string(), serde_json::from_str(text).unwrap()))
        .collect();
    OpenAPI {
        openapi: "3.0.3".to_string(),
        info: Info {
            title: "Test".to_string(),
            description: None,
            terms_of_service: None,
            version: "1.0".to_string(),
        },
        paths: Vec::new(),
        components: Some(Components { schemas }),
        tags: Vec::new(),
    }
}

fn types(settings: &GenerationSettings, schemas: Vec<(&str, &str)>) -> String {
    let mut generator = Generator::new(settings);
    generator.register_components(&document(schemas)).unwrap();
    generator.get_type_space().to_stream().to_string()
}

#[test]
fn default_styles() {
    assert_eq!(InterfaceStyle::default(), InterfaceStyle::Positional);
    assert_eq!(TagStyle::default(), TagStyle::Merged);
    let settings = GenerationSettings::new();
    assert_eq!(settings.interface(), InterfaceStyle::Positional);
    assert_eq!(settings.tag(), TagStyle::Merged);
    assert!(settings.inner_type().is_none());
    assert!(settings.pre_hook().is_none());
    assert!(settings.pre_hook_async().is_none());
    assert!(settings.post_hook().is_none());
}

#[test]
fn binary_strings_are_bytes() {
    let text = types(&GenerationSettings::new(), vec![("Thing", THING)]);
    assert!(text.contains("pub blob : Vec < u8 >"));
    // The generator with default settings has no such conversion.
    let mut generator = Generator::default();
    generator.register_components(&document(vec![("Thing", THING)])).unwrap();
    let text = generator.get_type_space().to_stream().to_string();
    assert!(!text.contains("Vec < u8 >"));
}

#[test]
fn builders_for_builder_style_only() {
    let mut settings = GenerationSettings::new();
    assert!(!types(&settings, vec![("Thing", THING)]).contains("pub mod builder"));
    settings.with_interface(InterfaceStyle::Builder);
    assert!(types(&settings, vec![("Thing", THING)]).contains("pub mod builder"));
    settings.with_interface(InterfaceStyle::Positional);
    assert!(!types(&settings, vec![("Thing", THING)]).contains("pub mod builder"));
}

#[test]
fn each_derive_is_given_once() {
    let mut settings = GenerationSettings::new();
    settings.with_derive("Zed").with_derive("Yed").with_derive("Zed");
    let text = types(&settings, vec![("Thing", THING)]);
    assert_eq!(text.matches("Zed").count(), 1);
    assert_eq!(text.matches("Yed").count(), 1);
}

#[test]
fn last_replacement_of_a_name_counts() {
    let mut settings = GenerationSettings::new();
    settings
        .with_replacement("Thing", "my::First", vec![TypeImpl::Display])
        .with_replacement("Other", "my::Unused", Vec::new())
        .with_replacement("Thing", "my::Second", vec![TypeImpl::FromStr, TypeImpl::Default]);
    let text = types(&settings, vec![("Thing", THING), ("Link", LINK)]);
    assert!(text.contains("pub to : my :: Second"));
    assert!(!text.contains("First"));
    assert!(!text.contains("struct Thing"));
}

#[test]
fn given_conversions_come_after_the_one_for_binary_strings() {
    let binary = || {
        serde_json::from_str::<schemars::schema::SchemaObject>(
            "{\"type\":\"string\",\"format\":\"binary\"}",
        )
        .unwrap()
    };
    let object = || {
        serde_json::from_str::<schemars::schema::SchemaObject>(
            "{\"type\":\"string\",\"format\":\"special\"}",
        )
        .unwrap()
    };
    let mut settings = GenerationSettings::new();
    settings
        .with_conversion(binary(), "my::Bytes", Vec::new())
        .with_conversion(object(), "my::Special", vec![TypeImpl::Display]);
    let text = types(
        &settings,
        vec![
            ("Thing", THING),
            (
                "Holder",
                "{\"type\":\"object\",\"required\":[\"s\"],\"properties\":{\
                    \"s\":{\"type\":\"string\",\"format\":\"special\"}}}",
            ),
        ],
    );
    assert!(text.contains("pub blob : Vec < u8 >"));
    assert!(text.contains("pub s : my :: Special"));
    assert!(!text.contains("my :: Bytes"));
}

#[test]
fn last_patch_of_a_name_counts() {
    let mut first = TypePatch::default();
    first.with_rename("Firstly");
    let mut second = TypePatch::default();
    second.with_rename("Secondly");
    let mut settings = GenerationSettings::new();
    settings.with_patch("Thing", &first).with_patch("Thing", &second);
    let names: Vec<&str> = settings.patches().iter().map(|one| one.0.as_str()).collect();
    assert_eq!(names, vec!["Thing", "Thing"]);
    assert!(format!("{:?}", settings.patches()[1].1).contains("Secondly"));
    let text = types(&settings, vec![("Thing", THING)]);
    assert!(text.contains("pub struct Secondly"));
    assert!(!text.contains("Firstly"));
}

#[test]
fn unknown_crates_follow_the_policy() {
    let schemas = || vec![("Foreign", FOREIGN), ("User", USER)];
    let mut settings = GenerationSettings::new();
    let text = types(&settings, schemas());
    assert!(text.contains("pub struct Foreign"));
    settings.with_unknown_crates(UnknownPolicy::Allow);
    let text = types(&settings, schemas());
    assert!(text.contains("pub it : :: some_crate :: Foreign"));
    settings.with_unknown_crates(UnknownPolicy::Deny);
    assert!(types(&settings, schemas()).contains("pub struct Foreign"));
    settings.with_unknown_crates(UnknownPolicy::Generate);
    assert!(types(&settings, schemas()).contains("pub struct Foreign"));
}

#[test]
fn named_crates_may_be_used_and_renamed() {
    let schemas = || vec![("Foreign", FOREIGN), ("User", USER)];
    let mut settings = GenerationSettings::new();
    settings.with_crate("some-crate", CrateVers::parse("1.0.0").unwrap(), None);
    assert!(types(&settings, schemas()).contains("pub it : :: some_crate :: Foreign"));
    let rename = "renamed".to_string();
    settings.with_crate("some-crate", CrateVers::Any, Some(&rename));
    assert!(types(&settings, schemas()).contains("pub it : :: renamed :: Foreign"));
    settings.with_crate("some-crate", CrateVers::Never, None);
    assert!(types(&settings, schemas()).contains("pub struct Foreign"));
}

#[test]
fn copies_are_the_same_settings() {
    let mut patch = TypePatch::default();
    patch.with_rename("Patched");
    let stream: TokenStream = "a :: B".parse().unwrap();
    let mut settings = GenerationSettings::new();
    settings
        .with_interface(InterfaceStyle::Builder)
        .with_tag(TagStyle::Separate)
        .with_inner_type(stream)
        .with_pre_hook("pre".parse().unwrap())
        .with_pre_hook_async("pre_async".parse().unwrap())
        .with_post_hook("post".parse().unwrap())
        .with_derive("Zed")
        .with_patch("Thing", &patch)
        .with_replacement("Foreign", "my::Own", vec![TypeImpl::Display])
        .with_unknown_crates(UnknownPolicy::Allow)
        .with_crate("some-crate", CrateVers::Any, None);
    let copy = settings.clone();
    assert_eq!(copy.interface(), InterfaceStyle::Builder);
    assert_eq!(copy.tag(), TagStyle::Separate);
    assert_eq!(copy.inner_type().unwrap().to_string(), "a :: B");
    assert_eq!(copy.pre_hook().unwrap().to_string(), "pre");
    assert_eq!(copy.pre_hook_async().unwrap().to_string(), "pre_async");
    assert_eq!(copy.post_hook().unwrap().to_string(), "post");
    let schemas = || vec![("Thing", THING), ("Link", LINK), ("Foreign", FOREIGN)];
    let text = types(&settings, schemas());
    assert_eq!(types(&copy, schemas()), text);
    assert!(text.contains("Patched"));
    assert!(text.contains("Zed"));
    // What is set afterwards does not reach the copy.
    settings.with_interface(InterfaceStyle::Positional);
    assert_eq!(types(&copy, schemas()), text);
    assert_ne!(types(&settings, schemas()), text);
}
