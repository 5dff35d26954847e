//! The settings of the generator.
use crate::distinct::{distinct, lemma_distinct, lemma_distinct_push};
use crate::tokens::{tokens, Token};
use crate::typespace::{
    add_conversion, add_crate, add_derive, add_patch, add_replacement, new_type_settings,
    set_struct_builder, set_type_mod, set_unknown_crates, string_format_schema, string_schema,
    type_settings, Conversion, Replacement, TypeImpl, TypeSettings, UnknownPolicy, UsableCrate,
};
use proc_macro2::TokenStream;
use schemars::schema::SchemaObject;
use typify::{CrateVers, TypeSpacePatch, TypeSpaceSettings};
use vstd::prelude::*;
use vstd::string::*;

verus! {

/// Style of the generated client.
#[derive(Clone, Copy, Debug, PartialEq, Eq, Structural)]
pub enum InterfaceStyle {
    /// Use positional style.
    Positional,
    /// Use builder style.
    Builder,
}

impl Default for InterfaceStyle {
    /// Positional style.
    fn default() -> (style: Self)
        ensures
            style == InterfaceStyle::Positional,
    {
        InterfaceStyle::Positional
    }
}

/// Style for using the OpenAPI tags when generating names in the client.
#[derive(Clone, Copy, Debug, PartialEq, Eq, Structural)]
pub enum TagStyle {
    /// Merge tags to create names in the generated client.
    Merged,
    /// Use each tag name to create separate names in the generated client.
    Separate,
}

impl Default for TagStyle {
    /// Merged tags.
    fn default() -> (style: Self)
        ensures
            style == TagStyle::Merged,
    {
        TagStyle::Merged
    }
}

/// The settings of the generator, as the settings hold them.
pub struct Settings {
    /// The style of the client.
    pub interface: InterfaceStyle,
    /// The use of tags.
    pub tag: TagStyle,
    /// The inner type of the client.
    pub inner_type: Option<Seq<Token>>,
    /// The hook before a request.
    pub pre_hook: Option<Seq<Token>>,
    /// The asynchronous hook before a request.
    pub pre_hook_async: Option<Seq<Token>>,
    /// The hook after a request.
    pub post_hook: Option<Seq<Token>>,
    /// The derives, in the order in which they were given.
    pub derives: Seq<Seq<char>>,
    /// What to do with crates that are not named.
    pub unknown_crates: UnknownPolicy,
    /// The crates whose types may be used.
    pub crates: Map<Seq<char>, UsableCrate>,
    /// The modifications by type name.
    pub patches: Map<Seq<char>, TypeSpacePatch>,
    /// The replacements by type name.
    pub replacements: Map<Seq<char>, Replacement>,
    /// The conversions, in the order in which they were given.
    pub conversions: Seq<Conversion>,
}

/// The settings with which the generator starts.
pub open spec fn initial_settings() -> Settings {
    Settings {
        interface: InterfaceStyle::Positional,
        tag: TagStyle::Merged,
        inner_type: None,
        pre_hook: None,
        pre_hook_async: None,
        post_hook: None,
        derives: Seq::empty(),
        unknown_crates: UnknownPolicy::Generate,
        crates: Map::empty(),
        patches: Map::empty(),
        replacements: Map::empty(),
        conversions: Seq::empty(),
    }
}

/// Binary strings are vectors of bytes.
pub open spec fn binary_conversion() -> Conversion {
    Conversion {
        schema: string_schema("binary"@),
        name: "Vec<u8>"@,
        impls: seq![TypeImpl::Display],
    }
}

/// The settings under which the types of a client are made.
pub open spec fn type_settings_for(settings: Settings) -> TypeSettings {
    TypeSettings {
        type_mod: Some("types"@),
        derives: distinct(settings.derives),
        struct_builder: settings.interface == InterfaceStyle::Builder,
        unknown_crates: settings.unknown_crates,
        crates: settings.crates,
        patches: settings.patches,
        replacements: settings.replacements,
        conversions: seq![binary_conversion()] + settings.conversions,
    }
}

/// A crate whose types may be used.
struct CrateSpec {
    name: String,
    version: CrateVers,
    rename: Option<String>,
}

/// A modification of a type.
struct PatchSpec {
    name: String,
    patch: TypeSpacePatch,
}

/// A replacement of a type.
struct ReplaceSpec {
    name: String,
    replace_name: String,
    impls: Vec<TypeImpl>,
}

/// A conversion of a schema.
struct ConvertSpec {
    schema: SchemaObject,
    name: String,
    impls: Vec<TypeImpl>,
}

/// Settings for the generator.
///
/// What is set by name is kept in the order in which it was set; of two
/// settings for the same name the later counts.
pub struct GenerationSettings {
    interface: InterfaceStyle,
    tag: TagStyle,
    inner_type: Option<TokenStream>,
    pre_hook: Option<TokenStream>,
    pre_hook_async: Option<TokenStream>,
    post_hook: Option<TokenStream>,
    extra_derives: Vec<String>,
    unknown_crates: UnknownPolicy,
    crates: Vec<CrateSpec>,
    patch: Vec<PatchSpec>,
    replace: Vec<ReplaceSpec>,
    convert: Vec<ConvertSpec>,
}

impl GenerationSettings {
    /// The modifications that were given, in the order in which they were given.
    pub closed spec fn given_patches(&self) -> Seq<(Seq<char>, TypeSpacePatch)> {
        self.patch@.map_values(|one: PatchSpec| (one.name@, one.patch))
    }
}

/// The text that is there, if any.
pub open spec fn optional_text(text: Option<String>) -> Option<Seq<char>> {
    match text {
        Some(text) => Some(text@),
        None => None,
    }
}

/// The tokens that are there, if any.
pub open spec fn optional_tokens(stream: Option<TokenStream>) -> Option<Seq<Token>> {
    match stream {
        Some(stream) => Some(tokens(stream)),
        None => None,
    }
}

spec fn usable(one: CrateSpec) -> UsableCrate {
    UsableCrate { version: one.version, rename: optional_text(one.rename) }
}

spec fn crates_of(all: Seq<CrateSpec>) -> Map<Seq<char>, UsableCrate>
    decreases all.len(),
{
    if all.len() == 0 {
        Map::empty()
    } else {
        crates_of(all.drop_last()).insert(all.last().name@, usable(all.last()))
    }
}

spec fn patches_of(all: Seq<PatchSpec>) -> Map<Seq<char>, TypeSpacePatch>
    decreases all.len(),
{
    if all.len() == 0 {
        Map::empty()
    } else {
        patches_of(all.drop_last()).insert(all.last().name@, all.last().patch)
    }
}

/// The modifications by name; of two for the same name the later counts.
pub open spec fn patch_table(list: Seq<(&String, &TypeSpacePatch)>) -> Map<
    Seq<char>,
    TypeSpacePatch,
>
    decreases list.len(),
{
    if list.len() == 0 {
        Map::empty()
    } else {
        patch_table(list.drop_last()).insert(list.last().0@, *list.last().1)
    }
}

spec fn replacement(one: ReplaceSpec) -> Replacement {
    Replacement { name: one.replace_name@, impls: one.impls@ }
}

spec fn replacements_of(all: Seq<ReplaceSpec>) -> Map<Seq<char>, Replacement>
    decreases all.len(),
{
    if all.len() == 0 {
        Map::empty()
    } else {
        replacements_of(all.drop_last()).insert(all.last().name@, replacement(all.last()))
    }
}

spec fn conversion(one: ConvertSpec) -> Conversion {
    Conversion { schema: one.schema, name: one.name@, impls: one.impls@ }
}

spec fn conversions_of(all: Seq<ConvertSpec>) -> Seq<Conversion> {
    all.map_values(|c: ConvertSpec| conversion(c))
}

/// The texts that some strings hold.
pub open spec fn texts(all: Seq<String>) -> Seq<Seq<char>> {
    all.map_values(|t: String| t@)
}

impl View for GenerationSettings {
    type V = Settings;

    closed spec fn view(&self) -> Settings {
        Settings {
            interface: self.interface,
            tag: self.tag,
            inner_type: optional_tokens(self.inner_type),
            pre_hook: optional_tokens(self.pre_hook),
            pre_hook_async: optional_tokens(self.pre_hook_async),
            post_hook: optional_tokens(self.post_hook),
            derives: texts(self.extra_derives@),
            unknown_crates: self.unknown_crates,
            crates: crates_of(self.crates@),
            patches: patches_of(self.patch@),
            replacements: replacements_of(self.replace@),
            conversions: conversions_of(self.convert@),
        }
    }
}

impl Default for GenerationSettings {
    /// The settings with which the generator starts.
    fn default() -> (settings: Self)
        ensures
            settings@ == initial_settings(),
            settings.given_patches().len() == 0,
    {
        let settings = GenerationSettings {
            interface: InterfaceStyle::default(),
            tag: TagStyle::default(),
            inner_type: None,
            pre_hook: None,
            pre_hook_async: None,
            post_hook: None,
            extra_derives: Vec::new(),
            unknown_crates: UnknownPolicy::Generate,
            crates: Vec::new(),
            patch: Vec::new(),
            replace: Vec::new(),
            convert: Vec::new(),
        };
        assert(settings@.derives =~= Seq::empty());
        assert(settings@.conversions =~= Seq::empty());
        settings
    }
}

impl GenerationSettings {
    /// Create new generator settings with default values.
    pub fn new() -> (settings: Self)
        ensures
            settings@ == initial_settings(),
            settings.given_patches().len() == 0,
    {
        GenerationSettings::default()
    }

    /// Set the [InterfaceStyle].
    pub fn with_interface(&mut self, interface: InterfaceStyle) -> (settings: &mut Self)
        ensures
            settings@ == (Settings { interface, ..old(self)@ }),
            settings.given_patches() == old(self).given_patches(),
            *final(self) == *final(settings),
    {
        self.interface = interface;
        self
    }

    /// Set the [TagStyle].
    pub fn with_tag(&mut self, tag: TagStyle) -> (settings: &mut Self)
        ensures
            settings@ == (Settings { tag, ..old(self)@ }),
            settings.given_patches() == old(self).given_patches(),
            *final(self) == *final(settings),
    {
        self.tag = tag;
        self
    }

    /// Client inner type available to pre and post hooks.
    pub fn with_inner_type(&mut self, inner_type: TokenStream) -> (settings: &mut Self)
        ensures
            settings@ == (Settings { inner_type: Some(tokens(inner_type)), ..old(self)@ }),
            settings.given_patches() == old(self).given_patches(),
            *final(self) == *final(settings),
    {
        self.inner_type = Some(inner_type);
        self
    }

    /// Hook invoked before issuing the HTTP request.
    pub fn with_pre_hook(&mut self, pre_hook: TokenStream) -> (settings: &mut Self)
        ensures
            settings@ == (Settings { pre_hook: Some(tokens(pre_hook)), ..old(self)@ }),
            settings.given_patches() == old(self).given_patches(),
            *final(self) == *final(settings),
    {
        self.pre_hook = Some(pre_hook);
        self
    }

    /// Asynchronous hook invoked before issuing the HTTP request.
    pub fn with_pre_hook_async(&mut self, pre_hook: TokenStream) -> (settings: &mut Self)
        ensures
            settings@ == (Settings { pre_hook_async: Some(tokens(pre_hook)), ..old(self)@ }),
            settings.given_patches() == old(self).given_patches(),
            *final(self) == *final(settings),
    {
        self.pre_hook_async = Some(pre_hook);
        self
    }

    /// Hook invoked prior to receiving the HTTP response.
    pub fn with_post_hook(&mut self, post_hook: TokenStream) -> (settings: &mut Self)
        ensures
            settings@ == (Settings { post_hook: Some(tokens(post_hook)), ..old(self)@ }),
            settings.given_patches() == old(self).given_patches(),
            *final(self) == *final(settings),
    {
        self.post_hook = Some(post_hook);
        self
    }

    /// Additional derive macros applied to generated types.
    pub fn with_derive(&mut self, derive: &str) -> (settings: &mut Self)
        ensures
            settings@ == (Settings { derives: old(self)@.derives.push(derive@), ..old(self)@ }),
            settings.given_patches() == old(self).given_patches(),
            *final(self) == *final(settings),
    {
        let ghost before = self.extra_derives@;
        self.extra_derives.push(derive.to_owned());
        assert(texts(self.extra_derives@) =~= texts(before).push(derive@));
        self
    }

    /// Modify a type with the given name.
    pub fn with_patch(&mut self, name: &str, patch: &TypeSpacePatch) -> (settings: &mut Self)
        ensures
            settings@ == (Settings {
                patches: old(self)@.patches.insert(name@, *patch),
                ..old(self)@
            }),
            settings.given_patches() == old(self).given_patches().push((name@, *patch)),
            *final(self) == *final(settings),
    {
        let ghost before = self.patch@;
        let one = PatchSpec { name: name.to_owned(), patch: patch.clone() };
        self.patch.push(one);
        assert(self.patch@.drop_last() =~= before);
        assert(self.given_patches() =~= old(self).given_patches().push((name@, *patch)));
        self
    }

    /// Replace a referenced type with a named type.
    pub fn with_replacement(
        &mut self,
        name: &str,
        replace_name: &str,
        impls: Vec<TypeImpl>,
    ) -> (settings: &mut Self)
        ensures
            settings@ == (Settings {
                replacements: old(self)@.replacements.insert(
                    name@,
                    Replacement { name: replace_name@, impls: impls@ },
                ),
                ..old(self)@
            }),
            settings.given_patches() == old(self).given_patches(),
            *final(self) == *final(settings),
    {
        let ghost before = self.replace@;
        let one = ReplaceSpec { name: name.to_owned(), replace_name: replace_name.to_owned(), impls };
        self.replace.push(one);
        assert(self.replace@.drop_last() =~= before);
        self
    }

    /// Replace a given schema with a named type.
    pub fn with_conversion(
        &mut self,
        schema: SchemaObject,
        name: &str,
        impls: Vec<TypeImpl>,
    ) -> (settings: &mut Self)
        ensures
            settings@ == (Settings {
                conversions: old(self)@.conversions.push(
                    Conversion { schema, name: name@, impls: impls@ },
                ),
                ..old(self)@
            }),
            settings.given_patches() == old(self).given_patches(),
            *final(self) == *final(settings),
    {
        let ghost before = self.convert@;
        let one = ConvertSpec { schema, name: name.to_owned(), impls };
        self.convert.push(one);
        assert(conversions_of(self.convert@) =~= conversions_of(before).push(conversion(one)));
        self
    }

    /// Policy regarding crates referenced by the schema extension
    /// `x-rust-type` not explicitly specified via [Self::with_crate].
    pub fn with_unknown_crates(&mut self, policy: UnknownPolicy) -> (settings: &mut Self)
        ensures
            settings@ == (Settings { unknown_crates: policy, ..old(self)@ }),
            settings.given_patches() == old(self).given_patches(),
            *final(self) == *final(settings),
    {
        self.unknown_crates = policy;
        self
    }

    /// Explicitly named crates whose types may be used during generation
    /// rather than generating new types based on their schemas (based on the
    /// presence of the `x-rust-type` extension).
    pub fn with_crate(
        &mut self,
        crate_name: &str,
        version: CrateVers,
        rename: Option<&String>,
    ) -> (settings: &mut Self)
        ensures
            settings@ == (Settings {
                crates: old(self)@.crates.insert(
                    crate_name@,
                    UsableCrate {
                        version,
                        rename: match rename {
                            Some(rename) => Some(rename@),
                            None => None,
                        },
                    },
                ),
                ..old(self)@
            }),
            settings.given_patches() == old(self).given_patches(),
            *final(self) == *final(settings),
    {
        let ghost before = self.crates@;
        let rename = match rename {
            Some(rename) => Some(rename.clone()),
            None => None,
        };
        let one = CrateSpec { name: crate_name.to_owned(), version, rename };
        self.crates.push(one);
        assert(self.crates@.drop_last() =~= before);
        self
    }

    /// The style of the client.
    pub fn interface(&self) -> (interface: InterfaceStyle)
        ensures
            interface == self@.interface,
    {
        self.interface
    }

    /// The use of tags.
    pub fn tag(&self) -> (tag: TagStyle)
        ensures
            tag == self@.tag,
    {
        self.tag
    }

    /// The inner type of the client.
    pub fn inner_type(&self) -> (inner: Option<TokenStream>)
        ensures
            optional_tokens(inner) == self@.inner_type,
    {
        copy_stream(&self.inner_type)
    }

    /// The hook before a request.
    pub fn pre_hook(&self) -> (hook: Option<TokenStream>)
        ensures
            optional_tokens(hook) == self@.pre_hook,
    {
        copy_stream(&self.pre_hook)
    }

    /// The asynchronous hook before a request.
    pub fn pre_hook_async(&self) -> (hook: Option<TokenStream>)
        ensures
            optional_tokens(hook) == self@.pre_hook_async,
    {
        copy_stream(&self.pre_hook_async)
    }

    /// The hook after a request.
    pub fn post_hook(&self) -> (hook: Option<TokenStream>)
        ensures
            optional_tokens(hook) == self@.post_hook,
    {
        copy_stream(&self.post_hook)
    }

    /// The modifications of types, in the order in which they were given. Of two
    /// for the same name the later counts.
    pub fn patches(&self) -> (list: Vec<(&String, &TypeSpacePatch)>)
        ensures
            patch_table(list@) == self@.patches,
            list@.len() == self.given_patches().len(),
            forall|i: int|
                0 <= i < list@.len() ==> (#[trigger] list@[i]).0@ == self.given_patches()[i].0
                    && *list@[i].1 == self.given_patches()[i].1,
    {
        let mut list: Vec<(&String, &TypeSpacePatch)> = Vec::new();
        let mut i: usize = 0;
        while i < self.patch.len()
            invariant
                0 <= i <= self.patch@.len(),
                patch_table(list@) == patches_of(self.patch@.take(i as int)),
                list@.len() == i,
                forall|k: int|
                    0 <= k < i ==> (#[trigger] list@[k]).0@ == self.patch@[k].name@ && *list@[k].1
                        == self.patch@[k].patch,
            decreases self.patch@.len() - i,
        {
            let ghost before = list@;
            assert(self.patch@.take(i + 1).drop_last() =~= self.patch@.take(i as int));
            list.push((&self.patch[i].name, &self.patch[i].patch));
            assert(list@.drop_last() =~= before);
            i = i + 1;
        }
        assert(self.patch@.take(i as int) =~= self.patch@);
        list
    }

    /// The settings under which the types of the client are made.
    pub fn to_type_settings(&self) -> (settings: TypeSpaceSettings)
        ensures
            type_settings(settings) == type_settings_for(self@),
    {
        let mut settings = new_type_settings();
        set_type_mod(&mut settings, "types");
        let mut display: Vec<TypeImpl> = Vec::new();
        display.push(TypeImpl::Display);
        assert(display@ =~= seq![TypeImpl::Display]);
        add_conversion(&mut settings, string_format_schema("binary"), "Vec<u8>", &display);
        set_struct_builder(&mut settings, self.interface == InterfaceStyle::Builder);
        let ghost first = type_settings(settings);
        assert(first.conversions =~= seq![binary_conversion()]);
        assert(first.derives =~= distinct(texts(self.extra_derives@.take(0))));
        let mut i: usize = 0;
        while i < self.extra_derives.len()
            invariant
                0 <= i <= self.extra_derives@.len(),
                type_settings(settings) == (TypeSettings {
                    derives: distinct(texts(self.extra_derives@.take(i as int))),
                    ..first
                }),
            decreases self.extra_derives@.len() - i,
        {
            proof {
                let before = texts(self.extra_derives@.take(i as int));
                let next = self.extra_derives@[i as int]@;
                lemma_distinct(before);
                lemma_distinct_push(before, next);
                assert(texts(self.extra_derives@.take(i + 1)) =~= before.push(next));
                assert(distinct(before).contains(next) <==> before.contains(next));
            }
            add_derive(&mut settings, self.extra_derives[i].as_str());
            i = i + 1;
        }
        assert(self.extra_derives@.take(i as int) =~= self.extra_derives@);
        set_unknown_crates(&mut settings, self.unknown_crates);
        let ghost first = type_settings(settings);
        assert(first.crates =~= crates_of(self.crates@.take(0)));
        let mut i: usize = 0;
        while i < self.crates.len()
            invariant
                0 <= i <= self.crates@.len(),
                type_settings(settings) == (TypeSettings {
                    crates: crates_of(self.crates@.take(i as int)),
                    ..first
                }),
            decreases self.crates@.len() - i,
        {
            let one = &self.crates[i];
            assert(self.crates@.take(i + 1).drop_last() =~= self.crates@.take(i as int));
            let rename = match &one.rename {
                Some(rename) => Some(rename),
                None => None,
            };
            add_crate(&mut settings, one.name.as_str(), one.version.clone(), rename);
            i = i + 1;
        }
        assert(self.crates@.take(i as int) =~= self.crates@);
        let ghost first = type_settings(settings);
        assert(first.patches =~= patches_of(self.patch@.take(0)));
        let mut i: usize = 0;
        while i < self.patch.len()
            invariant
                0 <= i <= self.patch@.len(),
                type_settings(settings) == (TypeSettings {
                    patches: patches_of(self.patch@.take(i as int)),
                    ..first
                }),
            decreases self.patch@.len() - i,
        {
            let one = &self.patch[i];
            assert(self.patch@.take(i + 1).drop_last() =~= self.patch@.take(i as int));
            add_patch(&mut settings, one.name.as_str(), &one.patch);
            i = i + 1;
        }
        assert(self.patch@.take(i as int) =~= self.patch@);
        let ghost first = type_settings(settings);
        assert(first.replacements =~= replacements_of(self.replace@.take(0)));
        let mut i: usize = 0;
        while i < self.replace.len()
            invariant
                0 <= i <= self.replace@.len(),
                type_settings(settings) == (TypeSettings {
                    replacements: replacements_of(self.replace@.take(i as int)),
                    ..first
                }),
            decreases self.replace@.len() - i,
        {
            let one = &self.replace[i];
            assert(self.replace@.take(i + 1).drop_last() =~= self.replace@.take(i as int));
            add_replacement(
                &mut settings,
                one.name.as_str(),
                one.replace_name.as_str(),
                &one.impls,
            );
            i = i + 1;
        }
        assert(self.replace@.take(i as int) =~= self.replace@);
        let ghost first = type_settings(settings);
        assert(first.conversions =~= seq![binary_conversion()] + conversions_of(
            self.convert@.take(0),
        ));
        let mut i: usize = 0;
        while i < self.convert.len()
            invariant
                0 <= i <= self.convert@.len(),
                type_settings(settings) == (TypeSettings {
                    conversions: seq![binary_conversion()] + conversions_of(
                        self.convert@.take(i as int),
                    ),
                    ..first
                }),
            decreases self.convert@.len() - i,
        {
            let one = &self.convert[i];
            add_conversion(&mut settings, one.schema.clone(), one.name.as_str(), &one.impls);
            assert(seq![binary_conversion()] + conversions_of(self.convert@.take(i + 1)) =~= (
            seq![binary_conversion()] + conversions_of(self.convert@.take(i as int))).push(
                conversion(self.convert@[i as int]),
            ));
            i = i + 1;
        }
        assert(self.convert@.take(i as int) =~= self.convert@);
        settings
    }
}

/// Another stream of the same tokens, where there is one.
fn copy_stream(stream: &Option<TokenStream>) -> (copy: Option<TokenStream>)
    ensures
        optional_tokens(copy) == optional_tokens(*stream),
{
    match stream {
        Some(stream) => Some(stream.clone()),
        None => None,
    }
}

/// The same traits.
fn copy_impls(impls: &Vec<TypeImpl>) -> (copy: Vec<TypeImpl>)
    ensures
        copy@ == impls@,
{
    let mut copy: Vec<TypeImpl> = Vec::new();
    let mut i: usize = 0;
    while i < impls.len()
        invariant
            0 <= i <= impls@.len(),
            copy@ == impls@.take(i as int),
        decreases impls@.len() - i,
    {
        copy.push(impls[i]);
        assert(impls@.take(i + 1) =~= impls@.take(i as int).push(impls@[i as int]));
        i = i + 1;
    }
    assert(impls@.take(i as int) =~= impls@);
    copy
}

impl GenerationSettings {
    /// The crates whose types may be used.
    fn copy_crates(&self) -> (copy: Vec<CrateSpec>)
        ensures
            crates_of(copy@) == crates_of(self.crates@),
    {
        let mut copy: Vec<CrateSpec> = Vec::new();
        let mut i: usize = 0;
        while i < self.crates.len()
            invariant
                0 <= i <= self.crates@.len(),
                crates_of(copy@) == crates_of(self.crates@.take(i as int)),
            decreases self.crates@.len() - i,
        {
            let one = &self.crates[i];
            let ghost before = copy@;
            assert(self.crates@.take(i + 1).drop_last() =~= self.crates@.take(i as int));
            let rename = match &one.rename {
                Some(rename) => Some(rename.clone()),
                None => None,
            };
            copy.push(CrateSpec { name: one.name.clone(), version: one.version.clone(), rename });
            assert(copy@.drop_last() =~= before);
            i = i + 1;
        }
        assert(self.crates@.take(i as int) =~= self.crates@);
        copy
    }

    /// The modifications of types.
    fn copy_patches(&self) -> (copy: Vec<PatchSpec>)
        ensures
            patches_of(copy@) == patches_of(self.patch@),
            copy@.map_values(|one: PatchSpec| (one.name@, one.patch)) == self.given_patches(),
    {
        let mut copy: Vec<PatchSpec> = Vec::new();
        let mut i: usize = 0;
        while i < self.patch.len()
            invariant
                0 <= i <= self.patch@.len(),
                patches_of(copy@) == patches_of(self.patch@.take(i as int)),
                copy@.len() == i,
                forall|k: int|
                    0 <= k < i ==> (#[trigger] copy@[k]).name@ == self.patch@[k].name@
                        && copy@[k].patch == self.patch@[k].patch,
            decreases self.patch@.len() - i,
        {
            let one = &self.patch[i];
            let ghost before = copy@;
            assert(self.patch@.take(i + 1).drop_last() =~= self.patch@.take(i as int));
            copy.push(PatchSpec { name: one.name.clone(), patch: one.patch.clone() });
            assert(copy@.drop_last() =~= before);
            i = i + 1;
        }
        assert(self.patch@.take(i as int) =~= self.patch@);
        assert(copy@.map_values(|one: PatchSpec| (one.name@, one.patch))
            =~= self.given_patches());
        copy
    }

    /// The replacements of types.
    fn copy_replacements(&self) -> (copy: Vec<ReplaceSpec>)
        ensures
            replacements_of(copy@) == replacements_of(self.replace@),
    {
        let mut copy: Vec<ReplaceSpec> = Vec::new();
        let mut i: usize = 0;
        while i < self.replace.len()
            invariant
                0 <= i <= self.replace@.len(),
                replacements_of(copy@) == replacements_of(self.replace@.take(i as int)),
            decreases self.replace@.len() - i,
        {
            let one = &self.replace[i];
            let ghost before = copy@;
            assert(self.replace@.take(i + 1).drop_last() =~= self.replace@.take(i as int));
            copy.push(
                ReplaceSpec {
                    name: one.name.clone(),
                    replace_name: one.replace_name.clone(),
                    impls: copy_impls(&one.impls),
                },
            );
            assert(copy@.drop_last() =~= before);
            i = i + 1;
        }
        assert(self.replace@.take(i as int) =~= self.replace@);
        copy
    }

    /// The conversions of schemas.
    fn copy_conversions(&self) -> (copy: Vec<ConvertSpec>)
        ensures
            conversions_of(copy@) == conversions_of(self.convert@),
    {
        let mut copy: Vec<ConvertSpec> = Vec::new();
        let mut i: usize = 0;
        while i < self.convert.len()
            invariant
                0 <= i <= self.convert@.len(),
                conversions_of(copy@) =~= conversions_of(self.convert@).take(i as int),
            decreases self.convert@.len() - i,
        {
            let one = &self.convert[i];
            let ghost before = copy@;
            let next = ConvertSpec {
                schema: one.schema.clone(),
                name: one.name.clone(),
                impls: copy_impls(&one.impls),
            };
            copy.push(next);
            assert(conversions_of(copy@) =~= conversions_of(before).push(conversion(next)));
            i = i + 1;
        }
        copy
    }

    /// The derives.
    fn copy_derives(&self) -> (copy: Vec<String>)
        ensures
            texts(copy@) == texts(self.extra_derives@),
    {
        let mut copy: Vec<String> = Vec::new();
        let mut i: usize = 0;
        while i < self.extra_derives.len()
            invariant
                0 <= i <= self.extra_derives@.len(),
                texts(copy@) =~= texts(self.extra_derives@).take(i as int),
            decreases self.extra_derives@.len() - i,
        {
            let ghost before = copy@;
            let next = self.extra_derives[i].clone();
            copy.push(next);
            assert(texts(copy@) =~= texts(before).push(next@));
            i = i + 1;
        }
        copy
    }
}

impl Clone for GenerationSettings {
    /// The same settings.
    fn clone(&self) -> (copy: Self)
        ensures
            copy@ == self@,
            copy.given_patches() == self.given_patches(),
    {
        GenerationSettings {
            interface: self.interface,
            tag: self.tag,
            inner_type: copy_stream(&self.inner_type),
            pre_hook: copy_stream(&self.pre_hook),
            pre_hook_async: copy_stream(&self.pre_hook_async),
            post_hook: copy_stream(&self.post_hook),
            extra_derives: self.copy_derives(),
            unknown_crates: self.unknown_crates,
            crates: self.copy_crates(),
            patch: self.copy_patches(),
            replace: self.copy_replacements(),
            convert: self.copy_conversions(),
        }
    }
}

/// Every derive that was given is given to the types, once.
pub proof fn law_each_derive_once(settings: Settings)
    ensures
        type_settings_for(settings).derives.no_duplicates(),
        forall|derive: Seq<char>| #[trigger]
            type_settings_for(settings).derives.contains(derive) <==> settings.derives.contains(
                derive,
            ),
{
    lemma_distinct(settings.derives);
}

/// The conversion of binary strings comes before those that were given, which
/// keep their order.
pub proof fn law_binary_conversion_first(settings: Settings)
    ensures
        type_settings_for(settings).conversions.len() == settings.conversions.len() + 1,
        type_settings_for(settings).conversions[0] == binary_conversion(),
        type_settings_for(settings).conversions.skip(1) == settings.conversions,
{
    assert(type_settings_for(settings).conversions.skip(1) =~= settings.conversions);
}

/// The types of a client are made as the settings say: with builders exactly where
/// builders are wanted, and with the crates, modifications and replacements that
/// were given. A binary string is always a vector of bytes that can be displayed.
pub proof fn law_types_follow_the_settings(settings: Settings)
    ensures
        ({
            let made = type_settings_for(settings);
            &&& made.struct_builder <==> settings.interface == InterfaceStyle::Builder
            &&& made.unknown_crates == settings.unknown_crates
            &&& forall|name: Seq<char>| #[trigger]
                made.crates.dom().contains(name) <==> settings.crates.dom().contains(name)
            &&& forall|name: Seq<char>| #[trigger]
                made.crates.dom().contains(name) ==> made.crates[name] == settings.crates[name]
            &&& forall|name: Seq<char>| #[trigger]
                made.patches.dom().contains(name) <==> settings.patches.dom().contains(name)
            &&& forall|name: Seq<char>| #[trigger]
                made.patches.dom().contains(name) ==> made.patches[name] == settings.patches[name]
            &&& forall|name: Seq<char>| #[trigger]
                made.replacements.dom().contains(name)
                    <==> settings.replacements.dom().contains(name)
            &&& forall|name: Seq<char>| #[trigger]
                made.replacements.dom().contains(name) ==> made.replacements[name]
                    == settings.replacements[name]
            &&& made.conversions.len() == settings.conversions.len() + 1
            &&& made.conversions[0].schema == string_schema(seq!['b', 'i', 'n', 'a', 'r', 'y'])
            &&& made.conversions[0].name == seq!['V', 'e', 'c', '<', 'u', '8', '>']
            &&& made.conversions[0].impls == seq![TypeImpl::Display]
            &&& forall|i: int|
                0 <= i < settings.conversions.len() ==> made.conversions[i + 1]
                    == #[trigger] settings.conversions[i]
        }),
{
    reveal_strlit("binary");
    reveal_strlit("Vec<u8>");
    assert("binary"@ =~= seq!['b', 'i', 'n', 'a', 'r', 'y']);
    assert("Vec<u8>"@ =~= seq!['V', 'e', 'c', '<', 'u', '8', '>']);
}

/// One more derive is given to the types behind those that were given before,
/// unless it was given before.
pub proof fn law_one_more_derive(settings: Settings, derive: Seq<char>)
    ensures
        ({
            let before = type_settings_for(settings).derives;
            let more = type_settings_for(
                Settings { derives: settings.derives.push(derive), ..settings },
            ).derives;
            &&& settings.derives.contains(derive) ==> more == before
            &&& !settings.derives.contains(derive) ==> more == before.push(derive)
            &&& settings.derives.len() == 0 ==> before.len() == 0
        }),
{
    lemma_distinct_push(settings.derives, derive);
}

/// A generator starts without anything set: positional arguments, merged tags, no
/// inner type, no hook, and nothing said of types or crates.
pub proof fn law_nothing_is_set_at_first()
    ensures
        initial_settings().interface is Positional,
        initial_settings().tag is Merged,
        initial_settings().inner_type is None,
        initial_settings().pre_hook is None,
        initial_settings().pre_hook_async is None,
        initial_settings().post_hook is None,
        initial_settings().derives.len() == 0,
        initial_settings().unknown_crates is Generate,
        forall|name: Seq<char>| !#[trigger] initial_settings().crates.dom().contains(name),
        forall|name: Seq<char>| !#[trigger] initial_settings().patches.dom().contains(name),
        forall|name: Seq<char>| !#[trigger] initial_settings().replacements.dom().contains(name),
        initial_settings().conversions.len() == 0,
{
}

/// Of the modifications of a name the last counts.
pub proof fn law_last_patch_counts(list: Seq<(&String, &TypeSpacePatch)>, i: int)
    requires
        0 <= i < list.len(),
        forall|j: int| i < j < list.len() ==> (#[trigger] list[j]).0@ != list[i].0@,
    ensures
        patch_table(list).dom().contains(list[i].0@),
        patch_table(list)[list[i].0@] == *list[i].1,
    decreases list.len(),
{
    let shorter = list.drop_last();
    let n = list.len() - 1;
    assert(list.last() == list[n]);
    if i < n {
        assert(list[n].0@ != list[i].0@);
        assert forall|j: int| i < j < shorter.len() implies (#[trigger] shorter[j]).0@
            != shorter[i].0@ by {
            assert(shorter[j] == list[j]);
        }
        law_last_patch_counts(shorter, i);
    }
}

/// A name for which no modification was given has none.
pub proof fn law_only_given_patches_count(
    list: Seq<(&String, &TypeSpacePatch)>,
    name: Seq<char>,
)
    requires
        forall|i: int| 0 <= i < list.len() ==> (#[trigger] list[i]).0@ != name,
    ensures
        !patch_table(list).dom().contains(name),
    decreases list.len(),
{
    if list.len() > 0 {
        let shorter = list.drop_last();
        assert(list.last() == list[list.len() - 1]);
        assert forall|i: int| 0 <= i < shorter.len() implies (
        #[trigger] shorter[i]).0@ != name by {
            assert(shorter[i] == list[i]);
        }
        law_only_given_patches_count(shorter, name);
    }
}

/// Texts are spoken of by their characters, and streams by their tokens; what is not
/// there is spoken of as nothing.
pub proof fn law_settings_as_they_are(
    all: Seq<String>,
    text: Option<String>,
    stream: Option<TokenStream>,
)
    ensures
        texts(all).len() == all.len(),
        forall|i: int| 0 <= i < all.len() ==> #[trigger] texts(all)[i] == all[i]@,
        text is None <==> optional_text(text) is None,
        text is Some ==> optional_text(text).unwrap() == text.unwrap()@,
        stream is None <==> optional_tokens(stream) is None,
        stream is Some ==> optional_tokens(stream).unwrap() == tokens(stream.unwrap()),
{
}

} // verus!
