//! The types that a client needs, and the settings under which they are made.
//!
//! Types are made by `typify`. What its settings hold is given by
//! [`type_settings`]; a space of types is spoken of by the names of what
//! `typify` makes of it.
use crate::tokens::{tokens, Token};
use proc_macro2::TokenStream;
use schemars::schema::Schema as JsonSchema;
use schemars::schema::SchemaObject;
use typify::Error as TypifyError;
use typify::{CrateVers, TypeSpace, TypeSpacePatch, TypeSpaceSettings};
use vstd::prelude::*;

verus! {

/// What to do with a crate of which the settings say nothing.
#[derive(Clone, Copy, Debug, PartialEq, Eq, Structural)]
pub enum UnknownPolicy {
    /// Generate the type from its schema.
    Generate,
    /// Use the type of the crate.
    Allow,
    /// Ask for the crate to be specified.
    Deny,
}

/// A trait that a type is known to implement.
#[derive(Clone, Copy, Debug, PartialEq, Eq, Structural)]
pub enum TypeImpl {
    /// `std::str::FromStr`
    FromStr,
    /// `std::fmt::Display`
    Display,
    /// `std::default::Default`
    Default,
}

/// `typify::TypeSpace`, a collection of types.
#[verifier::external_type_specification]
#[verifier::external_body]
pub struct ExTypeSpace(TypeSpace);

/// `typify::TypeSpaceSettings`, whose contents are given by [`type_settings`].
#[verifier::external_type_specification]
#[verifier::external_body]
pub struct ExTypeSpaceSettings(TypeSpaceSettings);

/// `typify::TypeSpacePatch`, a modification of a type.
#[verifier::external_type_specification]
#[verifier::external_body]
pub struct ExTypeSpacePatch(TypeSpacePatch);

/// `typify::CrateVers`, the versions of a crate that may be used.
#[verifier::external_type_specification]
#[verifier::external_body]
pub struct ExCrateVers(CrateVers);

/// `schemars::schema::SchemaObject`, the schema of a type.
#[verifier::external_type_specification]
#[verifier::external_body]
pub struct ExSchemaObject(SchemaObject);

/// A crate whose types may be used.
pub struct UsableCrate {
    /// The versions that may be used.
    pub version: CrateVers,
    /// The name under which the crate is known.
    pub rename: Option<Seq<char>>,
}

/// A named type that takes the place of another.
pub struct Replacement {
    /// The name of the type.
    pub name: Seq<char>,
    /// The traits that it implements.
    pub impls: Seq<TypeImpl>,
}

/// A named type that takes the place of a schema.
pub struct Conversion {
    /// The schema.
    pub schema: SchemaObject,
    /// The name of the type.
    pub name: Seq<char>,
    /// The traits that it implements.
    pub impls: Seq<TypeImpl>,
}

/// The settings under which types are made.
pub struct TypeSettings {
    /// The module in which the types stand.
    pub type_mod: Option<Seq<char>>,
    /// The derives of every type.
    pub derives: Seq<Seq<char>>,
    /// Whether structs have builders.
    pub struct_builder: bool,
    /// What to do with crates that are not named.
    pub unknown_crates: UnknownPolicy,
    /// The crates whose types may be used.
    pub crates: Map<Seq<char>, UsableCrate>,
    /// The modifications by type name.
    pub patches: Map<Seq<char>, TypeSpacePatch>,
    /// The replacements by type name.
    pub replacements: Map<Seq<char>, Replacement>,
    /// The conversions; of two for the same schema the first counts.
    pub conversions: Seq<Conversion>,
}

/// The settings with which `typify` starts.
pub open spec fn initial_type_settings() -> TypeSettings {
    TypeSettings {
        type_mod: None,
        derives: Seq::empty(),
        struct_builder: false,
        unknown_crates: UnknownPolicy::Generate,
        crates: Map::empty(),
        patches: Map::empty(),
        replacements: Map::empty(),
        conversions: Seq::empty(),
    }
}

/// What `typify`'s settings hold.
pub uninterp spec fn type_settings(settings: TypeSpaceSettings) -> TypeSettings;

/// The schema of a string in a format, of which nothing else is said.
pub uninterp spec fn string_schema(format: Seq<char>) -> SchemaObject;

/// The space without types that has the given settings.
pub uninterp spec fn empty_space(settings: TypeSettings) -> TypeSpace;

/// What may come of adding schemas to a space: what becomes of the space, and
/// whether it succeeds. Which of these comes depends on who reads names for
/// `proc_macro2`. `None` where `typify` may panic on the schemas.
pub uninterp spec fn ref_types_added(
    space: TypeSpace,
    schemas: Seq<(Seq<char>, JsonSchema)>,
) -> Option<Set<(TypeSpace, Result<(), TypifyError>)>>;

/// What may be written as the definitions of the types of a space, depending on
/// who writes identifiers and literals for `proc_macro2`; `None` where `typify`
/// may panic.
pub uninterp spec fn type_definitions(space: TypeSpace) -> Option<Set<Seq<Token>>>;

/// `typify::TypeSpacePatch::clone`: the same modification.
pub assume_specification[ <TypeSpacePatch as Clone>::clone ](patch: &TypeSpacePatch) -> (copy:
    TypeSpacePatch)
    ensures
        copy == *patch,
;

/// `typify::CrateVers::clone`: the same versions.
pub assume_specification[ <CrateVers as Clone>::clone ](version: &CrateVers) -> (copy: CrateVers)
    ensures
        copy == *version,
;

/// `schemars::schema::SchemaObject::clone`: the same schema.
pub assume_specification[ <SchemaObject as Clone>::clone ](schema: &SchemaObject) -> (copy:
    SchemaObject)
    ensures
        copy == *schema,
;

/// A `schemars::schema::SchemaObject` with the instance type of a string and a
/// format, and otherwise as `SchemaObject::default` makes it.
#[verifier::external_body]
pub(crate) fn string_format_schema(format: &str) -> (schema: SchemaObject)
    ensures
        schema == string_schema(format@),
{
    SchemaObject {
        instance_type: Some(schemars::schema::InstanceType::String.into()),
        format: Some(format.to_string()),
        ..SchemaObject::default()
    }
}

/// `typify::TypeSpaceSettings::default`.
#[verifier::external_body]
pub(crate) fn new_type_settings() -> (settings: TypeSpaceSettings)
    ensures
        type_settings(settings) == initial_type_settings(),
{
    TypeSpaceSettings::default()
}

/// `typify::TypeSpaceSettings::with_type_mod`: sets the module of the types.
#[verifier::external_body]
pub(crate) fn set_type_mod(settings: &mut TypeSpaceSettings, name: &str)
    ensures
        type_settings(*final(settings)) == (TypeSettings {
            type_mod: Some(name@),
            ..type_settings(*old(settings))
        }),
{
    settings.with_type_mod(name);
}

/// `typify::TypeSpaceSettings::with_derive`: adds a derive that is not there yet.
#[verifier::external_body]
pub(crate) fn add_derive(settings: &mut TypeSpaceSettings, derive: &str)
    ensures
        type_settings(*final(settings)) == (if type_settings(*old(settings)).derives.contains(
            derive@,
        ) {
            type_settings(*old(settings))
        } else {
            TypeSettings {
                derives: type_settings(*old(settings)).derives.push(derive@),
                ..type_settings(*old(settings))
            }
        }),
{
    settings.with_derive(derive.to_string());
}

/// `typify::TypeSpaceSettings::with_struct_builder`: sets whether structs have builders.
#[verifier::external_body]
pub(crate) fn set_struct_builder(settings: &mut TypeSpaceSettings, wanted: bool)
    ensures
        type_settings(*final(settings)) == (TypeSettings {
            struct_builder: wanted,
            ..type_settings(*old(settings))
        }),
{
    settings.with_struct_builder(wanted);
}

/// `typify::TypeSpaceSettings::with_unknown_crates`: sets what to do with crates
/// that are not named.
#[verifier::external_body]
pub(crate) fn set_unknown_crates(settings: &mut TypeSpaceSettings, policy: UnknownPolicy)
    ensures
        type_settings(*final(settings)) == (TypeSettings {
            unknown_crates: policy,
            ..type_settings(*old(settings))
        }),
{
    settings.with_unknown_crates(match policy {
        UnknownPolicy::Generate => typify::UnknownPolicy::Generate,
        UnknownPolicy::Allow => typify::UnknownPolicy::Allow,
        UnknownPolicy::Deny => typify::UnknownPolicy::Deny,
    });
}

/// `typify::TypeSpaceSettings::with_crate`: names a crate; what was said of it
/// before no longer counts.
#[verifier::external_body]
pub(crate) fn add_crate(
    settings: &mut TypeSpaceSettings,
    name: &str,
    version: CrateVers,
    rename: Option<&String>,
)
    ensures
        type_settings(*final(settings)) == (TypeSettings {
            crates: type_settings(*old(settings)).crates.insert(
                name@,
                UsableCrate {
                    version,
                    rename: match rename {
                        Some(rename) => Some(rename@),
                        None => None,
                    },
                },
            ),
            ..type_settings(*old(settings))
        }),
{
    settings.with_crate(name, version, rename);
}

/// `typify::TypeSpaceSettings::with_patch`: modifies a type; what was said of it
/// before no longer counts.
#[verifier::external_body]
pub(crate) fn add_patch(settings: &mut TypeSpaceSettings, name: &str, patch: &TypeSpacePatch)
    ensures
        type_settings(*final(settings)) == (TypeSettings {
            patches: type_settings(*old(settings)).patches.insert(name@, *patch),
            ..type_settings(*old(settings))
        }),
{
    settings.with_patch(name, patch);
}

/// `typify::TypeSpaceSettings::with_replacement`: replaces a type; what was said
/// of it before no longer counts.
#[verifier::external_body]
pub(crate) fn add_replacement(
    settings: &mut TypeSpaceSettings,
    name: &str,
    replacement: &str,
    impls: &Vec<TypeImpl>,
)
    ensures
        type_settings(*final(settings)) == (TypeSettings {
            replacements: type_settings(*old(settings)).replacements.insert(
                name@,
                Replacement { name: replacement@, impls: impls@ },
            ),
            ..type_settings(*old(settings))
        }),
{
    let impls = impls.iter().map(|one| match one {
        TypeImpl::FromStr => typify::TypeSpaceImpl::FromStr,
        TypeImpl::Display => typify::TypeSpaceImpl::Display,
        TypeImpl::Default => typify::TypeSpaceImpl::Default,
    });
    settings.with_replacement(name, replacement, impls);
}

/// `typify::TypeSpaceSettings::with_conversion`: adds a conversion after those
/// that are there.
#[verifier::external_body]
pub(crate) fn add_conversion(
    settings: &mut TypeSpaceSettings,
    schema: SchemaObject,
    name: &str,
    impls: &Vec<TypeImpl>,
)
    ensures
        type_settings(*final(settings)) == (TypeSettings {
            conversions: type_settings(*old(settings)).conversions.push(
                Conversion { schema, name: name@, impls: impls@ },
            ),
            ..type_settings(*old(settings))
        }),
{
    let impls = impls.iter().map(|one| match one {
        TypeImpl::FromStr => typify::TypeSpaceImpl::FromStr,
        TypeImpl::Display => typify::TypeSpaceImpl::Display,
        TypeImpl::Default => typify::TypeSpaceImpl::Default,
    });
    settings.with_conversion(schema, name, impls);
}

/// `typify::TypeSpace::new`: a space without types, made from what the settings
/// hold. It can be written, since it has no type on which `typify` might panic.
#[verifier::external_body]
pub(crate) fn new_space(settings: &TypeSpaceSettings) -> (space: TypeSpace)
    ensures
        space == empty_space(type_settings(*settings)),
        type_definitions(space) is Some,
{
    TypeSpace::new(settings)
}

/// The names of schemas with the schemas.
pub open spec fn named_schemas(schemas: Seq<(String, JsonSchema)>) -> Seq<(Seq<char>, JsonSchema)> {
    Seq::new(schemas.len(), |i: int| (schemas[i].0@, schemas[i].1))
}

/// Schemas can be added to a space without a panic.
pub open spec fn can_add(space: TypeSpace, schemas: Seq<(Seq<char>, JsonSchema)>) -> bool {
    schemas.len() > 0 ==> ref_types_added(space, schemas) is Some
}

/// What may come of adding schemas to a space. Adding none changes nothing.
pub open spec fn may_add(
    space: TypeSpace,
    schemas: Seq<(Seq<char>, JsonSchema)>,
    added: (TypeSpace, Result<(), TypifyError>),
) -> bool {
    if schemas.len() > 0 {
        ref_types_added(space, schemas).unwrap().contains(added)
    } else {
        added.0 == space && added.1 is Ok
    }
}

/// `typify::TypeSpace::add_ref_types`: adds the types of some schemas, which may
/// refer to each other by name. Where there are none it succeeds, and the space
/// stays as it is. `typify` panics on schemas that it does not support and on
/// references that it cannot follow; these are left out.
#[verifier::external_body]
pub(crate) fn add_ref_types(space: &mut TypeSpace, schemas: &Vec<(String, JsonSchema)>) -> (result:
    Result<(), TypifyError>)
    requires
        can_add(*old(space), named_schemas(schemas@)),
    ensures
        schemas@.len() > 0 ==> ref_types_added(
            *old(space),
            named_schemas(schemas@),
        ).unwrap().contains((*final(space), result)),
        schemas@.len() == 0 ==> result is Ok && *final(space) == *old(space),
{
    space.add_ref_types(schemas.iter().cloned())
}

/// `typify::TypeSpace::to_stream`: the definitions of the types. `typify` panics
/// where a derive, or a name given for a type, is not a path of Rust, and where
/// an earlier failure has left a type without its definition; such spaces are
/// left out.
#[verifier::external_body]
pub(crate) fn space_to_stream(space: &TypeSpace) -> (stream: TokenStream)
    requires
        type_definitions(*space) is Some,
    ensures
        type_definitions(*space).unwrap().contains(tokens(stream)),
{
    space.to_stream()
}

/// What comes of adding schemas to a space is what `typify` makes of them, where
/// there are any; where there are none, the space stays as it is and nothing fails.
pub proof fn law_schemas_are_added(
    space: TypeSpace,
    schemas: Seq<(Seq<char>, JsonSchema)>,
    added: (TypeSpace, Result<(), TypifyError>),
)
    requires
        can_add(space, schemas),
        may_add(space, schemas, added),
    ensures
        schemas.len() > 0 ==> {
            &&& ref_types_added(space, schemas) matches Some(outcomes)
            &&& outcomes.contains(added)
        },
        schemas.len() == 0 ==> added.0 == space && added.1 is Ok,
{
}

/// Schemas are handed over all of them, in their order, each under its name.
pub proof fn law_schemas_by_name(schemas: Seq<(String, JsonSchema)>)
    ensures
        named_schemas(schemas).len() == schemas.len(),
        forall|i: int|
            0 <= i < schemas.len() ==> (#[trigger] named_schemas(schemas)[i]).0 == schemas[i].0@
                && named_schemas(schemas)[i].1 == schemas[i].1,
{
}

} // verus!
