//! The generator.
//!
//! A client is generated in three steps. First the document is checked and its
//! schemas are made into types. Then each operation is made into code, for which
//! the caller gives the functions. At last that code is put together with the
//! types.
use crate::client::{
    builder_merged_tokens, builder_separate_tokens, client_code, client_tokens, joined_tokens,
    positional_tokens,
};
use crate::document::{operations_of, OpenAPI, Tag};
use crate::error::Error;
use crate::multipart::document_parts;
use crate::multipart_code::{
    is_multipart_ready, law_words_are_read, may_render, multipart_ready, process_multipart_form,
};
use crate::operations::{
    builder_merged, builder_separate, calls_item, calls_process, gathered, itemized, leads,
    positional, process_operations, processed, token_outcome, until_failure, with_methods, Calls,
    Work,
};
use crate::settings::{
    initial_settings, type_settings_for, GenerationSettings, InterfaceStyle, Settings, TagStyle,
};
use crate::tags::{borrowed, is_tag_table, tag_info};
use crate::tokens::{is_word, tokens, Token};
use crate::typespace::{
    add_ref_types, can_add, empty_space, initial_type_settings, may_add, named_schemas, new_space,
    new_type_settings, set_type_mod, space_to_stream, type_definitions, TypeSettings,
};
use crate::validate::{objection, validate_openapi};
use proc_macro2::TokenStream;
use schemars::schema::Schema as JsonSchema;
use typify::Error as TypifyError;
use typify::TypeSpace;
use vstd::prelude::*;

verus! {

/// OpenAPI generator.
pub struct Generator {
    type_space: TypeSpace,
    settings: GenerationSettings,
    uses_futures: bool,
    uses_websockets: bool,
}

/// What a generator holds.
pub struct GeneratorState {
    /// The types of the client.
    pub type_space: TypeSpace,
    /// The settings.
    pub settings: Settings,
    /// Whether the client needs futures.
    pub uses_futures: bool,
    /// Whether the client needs websockets.
    pub uses_websockets: bool,
}

impl View for Generator {
    type V = GeneratorState;

    closed spec fn view(&self) -> GeneratorState {
        GeneratorState {
            type_space: self.type_space,
            settings: self.settings@,
            uses_futures: self.uses_futures,
            uses_websockets: self.uses_websockets,
        }
    }
}

/// A generator that has the given settings and has generated nothing.
pub open spec fn new_generator(settings: Settings) -> GeneratorState {
    GeneratorState {
        type_space: empty_space(type_settings_for(settings)),
        settings,
        uses_futures: false,
        uses_websockets: false,
    }
}

/// A generator with default settings. Its types are made under the settings of
/// `typify`, but for the module in which they stand.
pub open spec fn default_generator() -> GeneratorState {
    GeneratorState {
        type_space: empty_space(
            TypeSettings { type_mod: Some("types"@), ..initial_type_settings() },
        ),
        settings: initial_settings(),
        uses_futures: false,
        uses_websockets: false,
    }
}

/// The schemas of the components of a document, by name.
pub open spec fn component_schemas(spec: OpenAPI) -> Seq<(Seq<char>, JsonSchema)> {
    match spec.components {
        Some(components) => named_schemas(components.schemas@),
        None => Seq::empty(),
    }
}

/// There is a form of client for these settings.
pub open spec fn supported_style(settings: Settings) -> bool {
    !(settings.interface == InterfaceStyle::Positional && settings.tag == TagStyle::Separate)
}

/// The work with which the operations of a document begin.
pub open spec fn first_work<S>(before: GeneratorState, space: TypeSpace, state: S) -> Work<S> {
    Work {
        state,
        type_space: space,
        uses_futures: before.uses_futures,
        uses_websockets: before.uses_websockets,
    }
}

/// The generator once it has been given the work back.
pub open spec fn worked<S>(before: GeneratorState, work: Work<S>) -> GeneratorState {
    GeneratorState {
        type_space: work.type_space,
        settings: before.settings,
        uses_futures: before.uses_futures || work.uses_futures,
        uses_websockets: before.uses_websockets || work.uses_websockets,
    }
}

/// What may come of writing operations as the settings want it. `all_tags` are
/// the tags of the document.
pub open spec fn written<S, M, I, B, T>(
    settings: Settings,
    all_tags: Seq<Tag>,
    item: I,
    method: B,
    tags: T,
    methods: Vec<M>,
    start: Work<S>,
    done: (Work<S>, Result<Seq<Token>, Error>),
) -> bool where
    I: Fn(Work<S>, &M, InterfaceStyle, TagStyle) -> (Work<S>, Result<TokenStream, Error>),
    B: Fn(Work<S>, &M) -> (Work<S>, TokenStream),
    T: Fn(Work<S>, &Vec<M>, &Vec<&Tag>) -> (Work<S>, (TokenStream, TokenStream)),
 {
    match (settings.interface, settings.tag) {
        (InterfaceStyle::Positional, TagStyle::Merged) => positional(item, methods@, start, done),
        (InterfaceStyle::Positional, TagStyle::Separate) => false,
        (InterfaceStyle::Builder, TagStyle::Merged) => builder_merged(
            item,
            method,
            methods@,
            start,
            done,
        ),
        (InterfaceStyle::Builder, TagStyle::Separate) => exists|table: Vec<&Tag>|
            {
                &&& is_tag_table(all_tags, borrowed(table@))
                &&& #[trigger] builder_separate(item, tags, methods, table, start, done)
            },
    }
}

/// A stream is a client for a document, with the types of a space.
pub open spec fn is_client(
    settings: Settings,
    spec: OpenAPI,
    space: TypeSpace,
    forms: Seq<Token>,
    operations: Seq<Token>,
    stream: TokenStream,
) -> bool {
    exists|types: Seq<Token>|
        {
            &&& type_definitions(space).unwrap().contains(types)
            &&& tokens(stream) == #[trigger] client_tokens(
                spec.info,
                settings.inner_type,
                types,
                forms,
                operations,
            )
        }
}

/// What may come once the operations of a document have been read: nothing, where
/// its forms cannot be rendered or there is no form of client for the settings;
/// the failure of the first operation that cannot be written; or the client.
pub open spec fn finished<S, M, I, B, T>(
    before: GeneratorState,
    spec: OpenAPI,
    item: I,
    method: B,
    tags: T,
    methods: Vec<M>,
    start: Work<S>,
    after: GeneratorState,
    result: Option<Result<TokenStream, Error>>,
) -> bool where
    I: Fn(Work<S>, &M, InterfaceStyle, TagStyle) -> (Work<S>, Result<TokenStream, Error>),
    B: Fn(Work<S>, &M) -> (Work<S>, TokenStream),
    T: Fn(Work<S>, &Vec<M>, &Vec<&Tag>) -> (Work<S>, (TokenStream, TokenStream)),
 {
    match result {
        None => {
            &&& after == worked(before, start)
            &&& {
                ||| !multipart_ready(spec)
                ||| may_render(spec, None)
                ||| !supported_style(before.settings)
            }
        },
        Some(result) => exists|forms: Seq<Token>, done: (Work<S>, Result<Seq<Token>, Error>)|
            {
                &&& multipart_ready(spec)
                &&& #[trigger] may_render(spec, Some(forms))
                &&& #[trigger] written(
                    before.settings,
                    spec.tags@,
                    item,
                    method,
                    tags,
                    methods,
                    start,
                    done,
                )
                &&& after == worked(before, done.0)
                &&& match done.1 {
                    Err(error) => result == Err::<TokenStream, Error>(error),
                    Ok(operations) => result matches Ok(stream) && is_client(
                        before.settings,
                        spec,
                        done.0.type_space,
                        forms,
                        operations,
                        stream,
                    ),
                }
            },
    }
}

/// What may come of generating a client, step by step. A document with which
/// something is wrong is refused, and nothing is done. Otherwise the types of the
/// components are added; where that fails, it is said why. Then the operations
/// are read, in the order of the document; the first that fails is reported, and
/// otherwise they are written and the client is put together.
pub open spec fn generation<S, M, P, I, B, T>(
    before: GeneratorState,
    spec: OpenAPI,
    state: S,
    process: P,
    item: I,
    method: B,
    tags: T,
    after: GeneratorState,
    result: Option<Result<TokenStream, Error>>,
) -> bool where
    P: Fn(Work<S>, usize) -> (Work<S>, Result<M, Error>),
    I: Fn(Work<S>, &M, InterfaceStyle, TagStyle) -> (Work<S>, Result<TokenStream, Error>),
    B: Fn(Work<S>, &M) -> (Work<S>, TokenStream),
    T: Fn(Work<S>, &Vec<M>, &Vec<&Tag>) -> (Work<S>, (TokenStream, TokenStream)),
 {
    match objection(spec) {
        Some(text) => {
            &&& after == before
            &&& result matches Some(Err(Error::UnexpectedFormat(what))) && what@ == text
        },
        None => exists|added: (TypeSpace, Result<(), TypifyError>)|
            {
                &&& #[trigger] may_add(before.type_space, component_schemas(spec), added)
                &&& match added.1 {
                    Err(cause) => {
                        &&& after == (GeneratorState { type_space: added.0, ..before })
                        &&& result == Some(Err::<TokenStream, Error>(Error::TypeError(cause)))
                    },
                    Ok(()) => operated(
                        before,
                        spec,
                        first_work(before, added.0, state),
                        process,
                        item,
                        method,
                        tags,
                        after,
                        result,
                    ),
                }
            },
    }
}

/// What may come once the types of the components have been added.
pub open spec fn operated<S, M, P, I, B, T>(
    before: GeneratorState,
    spec: OpenAPI,
    start: Work<S>,
    process: P,
    item: I,
    method: B,
    tags: T,
    after: GeneratorState,
    result: Option<Result<TokenStream, Error>>,
) -> bool where
    P: Fn(Work<S>, usize) -> (Work<S>, Result<M, Error>),
    I: Fn(Work<S>, &M, InterfaceStyle, TagStyle) -> (Work<S>, Result<TokenStream, Error>),
    B: Fn(Work<S>, &M) -> (Work<S>, TokenStream),
    T: Fn(Work<S>, &Vec<M>, &Vec<&Tag>) -> (Work<S>, (TokenStream, TokenStream)),
 {
    exists|read: (Work<S>, Result<Vec<M>, Error>)|
        {
            &&& #[trigger] processed(process, operations_of(spec.paths@).len(), start, read)
            &&& match read.1 {
                Err(error) => {
                    &&& after == worked(before, read.0)
                    &&& result == Some(Err::<TokenStream, Error>(error))
                },
                Ok(methods) => finished(
                    before,
                    spec,
                    item,
                    method,
                    tags,
                    methods,
                    read.0,
                    after,
                    result,
                ),
            }
        }
}

/// `typify` can take the schemas of a document, if it comes to that.
pub open spec fn components_supported(state: GeneratorState, spec: OpenAPI) -> bool {
    objection(spec) is None ==> can_add(state.type_space, component_schemas(spec))
}

/// All operations of a document may be read, with some work and some methods.
pub open spec fn may_be_read<S, M, P>(
    before: GeneratorState,
    spec: OpenAPI,
    state: S,
    process: P,
    work: Work<S>,
    methods: Vec<M>,
) -> bool where P: Fn(Work<S>, usize) -> (Work<S>, Result<M, Error>) {
    &&& objection(spec) is None
    &&& exists|added: (TypeSpace, Result<(), TypifyError>)|
        {
            &&& #[trigger] may_add(before.type_space, component_schemas(spec), added)
            &&& added.1 is Ok
            &&& processed(
                process,
                operations_of(spec.paths@).len(),
                first_work(before, added.0, state),
                (work, Ok::<Vec<M>, Error>(methods)),
            )
        }
}

/// There is a form of client for the settings, and the forms of the document can
/// be rendered, if it comes to that.
pub open spec fn client_supported<S, M, P>(
    before: GeneratorState,
    spec: OpenAPI,
    state: S,
    process: P,
) -> bool where P: Fn(Work<S>, usize) -> (Work<S>, Result<M, Error>) {
    (exists|work: Work<S>, methods: Vec<M>| #[trigger]
        may_be_read(before, spec, state, process, work, methods)) ==> multipart_ready(spec)
        && supported_style(before.settings)
}

/// `typify` can write the types with which the operations of a document may end.
pub open spec fn types_supported<S, M, P, I, B, T>(
    before: GeneratorState,
    spec: OpenAPI,
    state: S,
    process: P,
    item: I,
    method: B,
    tags: T,
) -> bool where
    P: Fn(Work<S>, usize) -> (Work<S>, Result<M, Error>),
    I: Fn(Work<S>, &M, InterfaceStyle, TagStyle) -> (Work<S>, Result<TokenStream, Error>),
    B: Fn(Work<S>, &M) -> (Work<S>, TokenStream),
    T: Fn(Work<S>, &Vec<M>, &Vec<&Tag>) -> (Work<S>, (TokenStream, TokenStream)),
 {
    forall|read: Work<S>, methods: Vec<M>, work: Work<S>, operations: Seq<Token>|
        {
            &&& #[trigger] may_be_read(before, spec, state, process, read, methods)
            &&& #[trigger] written(
                before.settings,
                spec.tags@,
                item,
                method,
                tags,
                methods,
                read,
                (work, Ok::<Seq<Token>, Error>(operations)),
            )
        } ==> type_definitions(work.type_space) is Some
}

impl Default for Generator {
    /// A generator with default settings.
    fn default() -> (generator: Self)
        ensures
            generator@ == default_generator(),
            type_definitions(generator@.type_space) is Some,
    {
        let mut settings = new_type_settings();
        set_type_mod(&mut settings, "types");
        Generator {
            type_space: new_space(&settings),
            settings: GenerationSettings::default(),
            uses_futures: false,
            uses_websockets: false,
        }
    }
}

impl Generator {
    /// Create a new generator with the given settings.
    pub fn new(settings: &GenerationSettings) -> (generator: Self)
        ensures
            generator@ == new_generator(settings@),
            type_definitions(generator@.type_space) is Some,
    {
        let type_settings = settings.to_type_settings();
        Generator {
            type_space: new_space(&type_settings),
            settings: settings.clone(),
            uses_futures: false,
            uses_websockets: false,
        }
    }

    /// Checks a document and adds the types of its schemas.
    pub fn register_components(&mut self, spec: &OpenAPI) -> (result: Result<(), Error>)
        requires
            components_supported(old(self)@, *spec),
        ensures
            match objection(*spec) {
                Some(text) => {
                    &&& final(self)@ == old(self)@
                    &&& result matches Err(Error::UnexpectedFormat(what)) && what@ == text
                },
                None => exists|added: (TypeSpace, Result<(), TypifyError>)|
                    {
                        &&& #[trigger] may_add(
                            old(self)@.type_space,
                            component_schemas(*spec),
                            added,
                        )
                        &&& final(self)@ == (GeneratorState { type_space: added.0, ..old(self)@ })
                        &&& match added.1 {
                            Ok(()) => result is Ok,
                            Err(cause) => result == Err::<(), Error>(Error::TypeError(cause)),
                        }
                    },
            },
    {
        if let Err(error) = validate_openapi(spec) {
            return Err(error);
        }
        let outcome = match &spec.components {
            Some(components) => add_ref_types(&mut self.type_space, &components.schemas),
            None => {
                let none: Vec<(String, JsonSchema)> = Vec::new();
                assert(named_schemas(none@) =~= Seq::empty());
                add_ref_types(&mut self.type_space, &none)
            },
        };
        assert(may_add(
            old(self)@.type_space,
            component_schemas(*spec),
            (self@.type_space, outcome),
        ));
        match outcome {
            Ok(()) => Ok(()),
            Err(cause) => Err(Error::from(cause)),
        }
    }

    /// Takes back the work that was done on operations.
    fn take_back<S>(&mut self, work: Work<S>)
        ensures
            final(self)@ == worked(old(self)@, work),
    {
        self.type_space = work.type_space;
        self.uses_futures = self.uses_futures || work.uses_futures;
        self.uses_websockets = self.uses_websockets || work.uses_websockets;
    }

    /// Emit a [TokenStream] containing the generated client code.
    ///
    /// How an operation is read and written is up to the caller. `process` reads
    /// the operation at a place among those of the document. `item` writes what
    /// was read as a method with positional arguments, or as a builder, and
    /// `method` the method that returns the builder. `tags` writes the traits of
    /// the tags with their implementations, and what makes them available.
    ///
    /// Nothing comes, not even a failure, where a name of a form cannot be read as
    /// code (see [`process_multipart_form`]). The forms of the document must be
    /// such that they can be rendered, and positional arguments are not supported
    /// with separate tags.
    pub fn generate_tokens<S, M, P, I, B, T>(
        &mut self,
        spec: &OpenAPI,
        state: S,
        process: P,
        item: I,
        method: B,
        tags: T,
    ) -> (result: Option<Result<TokenStream, Error>>) where
        P: Fn(Work<S>, usize) -> (Work<S>, Result<M, Error>),
        I: Fn(Work<S>, &M, InterfaceStyle, TagStyle) -> (Work<S>, Result<TokenStream, Error>),
        B: Fn(Work<S>, &M) -> (Work<S>, TokenStream),
        T: Fn(Work<S>, &Vec<M>, &Vec<&Tag>) -> (Work<S>, (TokenStream, TokenStream)),

        requires
            components_supported(old(self)@, *spec),
            client_supported(old(self)@, *spec, state, process),
            types_supported(old(self)@, *spec, state, process, item, method, tags),
            forall|work: Work<S>, i: usize|
                i < operations_of(spec.paths@).len() ==> #[trigger] process.requires((work, i)),
            forall|work: Work<S>, one: &M, interface: InterfaceStyle, tag: TagStyle| #[trigger]
                item.requires((work, one, interface, tag)),
            forall|work: Work<S>, one: &M| #[trigger] method.requires((work, one)),
            forall|work: Work<S>, all: &Vec<M>, table: &Vec<&Tag>| #[trigger]
                tags.requires((work, all, table)),
        ensures
            generation(
                old(self)@,
                *spec,
                state,
                process,
                item,
                method,
                tags,
                final(self)@,
                result,
            ),
            result is None ==> may_render(*spec, None),
    {
        let ghost before = self@;
        let result = self.try_generate_tokens(spec, state, process, item, method, tags);
        proof {
            if result is None {
                lemma_nothing_comes(before, *spec, state, process, item, method, tags, self@);
            }
        }
        result
    }

    /// Emit a [TokenStream] containing the generated client code, as
    /// [`Self::generate_tokens`] does. Nothing comes where the forms of the
    /// document cannot be rendered, and where positional arguments are wanted with
    /// separate tags.
    pub fn try_generate_tokens<S, M, P, I, B, T>(
        &mut self,
        spec: &OpenAPI,
        state: S,
        process: P,
        item: I,
        method: B,
        tags: T,
    ) -> (result: Option<Result<TokenStream, Error>>) where
        P: Fn(Work<S>, usize) -> (Work<S>, Result<M, Error>),
        I: Fn(Work<S>, &M, InterfaceStyle, TagStyle) -> (Work<S>, Result<TokenStream, Error>),
        B: Fn(Work<S>, &M) -> (Work<S>, TokenStream),
        T: Fn(Work<S>, &Vec<M>, &Vec<&Tag>) -> (Work<S>, (TokenStream, TokenStream)),

        requires
            components_supported(old(self)@, *spec),
            types_supported(old(self)@, *spec, state, process, item, method, tags),
            forall|work: Work<S>, i: usize|
                i < operations_of(spec.paths@).len() ==> #[trigger] process.requires((work, i)),
            forall|work: Work<S>, one: &M, interface: InterfaceStyle, tag: TagStyle| #[trigger]
                item.requires((work, one, interface, tag)),
            forall|work: Work<S>, one: &M| #[trigger] method.requires((work, one)),
            forall|work: Work<S>, all: &Vec<M>, table: &Vec<&Tag>| #[trigger]
                tags.requires((work, all, table)),
        ensures
            generation(
                old(self)@,
                *spec,
                state,
                process,
                item,
                method,
                tags,
                final(self)@,
                result,
            ),
    {
        let ghost before = self@;
        if let Err(error) = self.register_components(spec) {
            return Some(Err(error));
        }
        let ghost added = self@.type_space;
        let mut space = new_space(&new_type_settings());
        std::mem::swap(&mut space, &mut self.type_space);
        let start = Work {
            state,
            type_space: space,
            uses_futures: self.uses_futures,
            uses_websockets: self.uses_websockets,
        };
        assert(start == first_work(before, added, state));
        let read = process_operations(spec, start, process);
        let ghost n = operations_of(spec.paths@).len();
        assert(processed(process, n, first_work(before, added, state), read));
        let (work, outcome) = read;
        let methods = match outcome {
            Ok(methods) => methods,
            Err(error) => {
                self.take_back(work);
                return Some(Err(error));
            },
        };
        let ghost start = work;
        assert(may_be_read(before, *spec, state, process, start, methods));
        if !is_multipart_ready(spec) {
            self.take_back(work);
            return None;
        }
        let forms = match process_multipart_form(spec) {
            Some(forms) => forms,
            None => {
                self.take_back(work);
                return None;
            },
        };
        assert(may_render(*spec, Some(tokens(forms))));
        let (work, code) = match (self.settings.interface(), self.settings.tag()) {
            (InterfaceStyle::Positional, TagStyle::Merged) => {
                Generator::generate_tokens_positional_merged(work, &methods, item)
            },
            (InterfaceStyle::Positional, TagStyle::Separate) => {
                self.take_back(work);
                return None;
            },
            (InterfaceStyle::Builder, TagStyle::Merged) => {
                Generator::generate_tokens_builder_merged(work, &methods, item, method)
            },
            (InterfaceStyle::Builder, TagStyle::Separate) => {
                let table = tag_info(spec);
                Generator::generate_tokens_builder_separate(work, &methods, &table, item, tags)
            },
        };
        let ghost done = (work, token_outcome(code));
        assert(written(before.settings, spec.tags@, item, method, tags, methods, start, done));
        self.take_back(work);
        assert(self@ == worked(before, done.0));
        match code {
            Ok(operations) => {
                let types = space_to_stream(&self.type_space);
                let inner = self.settings.inner_type();
                let ghost defined = tokens(types);
                let ghost rendered = tokens(forms);
                let ghost body = tokens(operations);
                let stream = client_code(&spec.info, &inner, types, forms, operations);
                assert(tokens(stream) == client_tokens(
                    spec.info,
                    before.settings.inner_type,
                    defined,
                    rendered,
                    body,
                ));
                assert(is_client(
                    before.settings,
                    *spec,
                    done.0.type_space,
                    rendered,
                    body,
                    stream,
                ));
                Some(Ok(stream))
            },
            Err(error) => Some(Err(error)),
        }
    }

    /// Get the [TypeSpace] for schemas present in the OpenAPI specification.
    pub fn get_type_space(&self) -> (space: &TypeSpace)
        ensures
            *space == self@.type_space,
    {
        &self.type_space
    }

    /// Whether the generated client needs to use additional crates to support futures.
    pub fn uses_futures(&self) -> (yes: bool)
        ensures
            yes == self@.uses_futures,
    {
        self.uses_futures
    }

    /// Whether the generated client needs to use additional crates to support websockets.
    pub fn uses_websockets(&self) -> (yes: bool)
        ensures
            yes == self@.uses_websockets,
    {
        self.uses_websockets
    }
}

/// Generating a client keeps the settings, and what a client was found to need it
/// still needs. A document that is refused changes nothing.
pub proof fn law_generation_keeps<S, M, P, I, B, T>(
    before: GeneratorState,
    spec: OpenAPI,
    state: S,
    process: P,
    item: I,
    method: B,
    tags: T,
    after: GeneratorState,
    result: Option<Result<TokenStream, Error>>,
) where
    P: Fn(Work<S>, usize) -> (Work<S>, Result<M, Error>),
    I: Fn(Work<S>, &M, InterfaceStyle, TagStyle) -> (Work<S>, Result<TokenStream, Error>),
    B: Fn(Work<S>, &M) -> (Work<S>, TokenStream),
    T: Fn(Work<S>, &Vec<M>, &Vec<&Tag>) -> (Work<S>, (TokenStream, TokenStream)),

    requires
        generation(before, spec, state, process, item, method, tags, after, result),
    ensures
        after.settings == before.settings,
        before.uses_futures ==> after.uses_futures,
        before.uses_websockets ==> after.uses_websockets,
        objection(spec) is Some ==> after == before && result matches Some(Err(_)),
{
}

/// With a document with which nothing is wrong, a schema that is refused gives the
/// failure. Otherwise the operations are read in the order of the document, and
/// the first that fails gives the failure.
pub proof fn law_first_failure_is_reported<S, M, P, I, B, T>(
    before: GeneratorState,
    spec: OpenAPI,
    state: S,
    process: P,
    item: I,
    method: B,
    tags: T,
    after: GeneratorState,
    result: Option<Result<TokenStream, Error>>,
) where
    P: Fn(Work<S>, usize) -> (Work<S>, Result<M, Error>),
    I: Fn(Work<S>, &M, InterfaceStyle, TagStyle) -> (Work<S>, Result<TokenStream, Error>),
    B: Fn(Work<S>, &M) -> (Work<S>, TokenStream),
    T: Fn(Work<S>, &Vec<M>, &Vec<&Tag>) -> (Work<S>, (TokenStream, TokenStream)),

    requires
        generation(before, spec, state, process, item, method, tags, after, result),
        objection(spec) is None,
    ensures
        exists|added: (TypeSpace, Result<(), TypifyError>)|
            {
                &&& #[trigger] may_add(before.type_space, component_schemas(spec), added)
                &&& match added.1 {
                    Err(cause) => result == Some(
                        Err::<TokenStream, Error>(Error::TypeError(cause)),
                    ),
                    Ok(()) => exists|calls: Calls<S, Result<M, Error>>|
                        {
                            &&& #[trigger] calls_process(process, calls)
                            &&& calls.works[0] == first_work(before, added.0, state)
                            &&& until_failure(calls.results, operations_of(spec.paths@).len())
                            &&& calls.results.len() > 0 ==> (calls.results.last() matches Err(error)
                                ==> result == Some(Err::<TokenStream, Error>(error)))
                        },
                }
            },
{
    let added = choose|added: (TypeSpace, Result<(), TypifyError>)|
        {
            &&& #[trigger] may_add(before.type_space, component_schemas(spec), added)
            &&& match added.1 {
                Err(cause) => {
                    &&& after == (GeneratorState { type_space: added.0, ..before })
                    &&& result == Some(Err::<TokenStream, Error>(Error::TypeError(cause)))
                },
                Ok(()) => operated(
                    before,
                    spec,
                    first_work(before, added.0, state),
                    process,
                    item,
                    method,
                    tags,
                    after,
                    result,
                ),
            }
        };
    if added.1 is Ok {
        let start = first_work(before, added.0, state);
        let n = operations_of(spec.paths@).len();
        let read = choose|read: (Work<S>, Result<Vec<M>, Error>)|
            {
                &&& #[trigger] processed(process, n, start, read)
                &&& match read.1 {
                    Err(error) => {
                        &&& after == worked(before, read.0)
                        &&& result == Some(Err::<TokenStream, Error>(error))
                    },
                    Ok(methods) => finished(
                        before,
                        spec,
                        item,
                        method,
                        tags,
                        methods,
                        read.0,
                        after,
                        result,
                    ),
                }
            };
        let calls = choose|calls: Calls<S, Result<M, Error>>|
            {
                &&& #[trigger] calls_process(process, calls)
                &&& leads(calls, start, read.0)
                &&& until_failure(calls.results, n)
                &&& gathered(calls.results, read.1)
            };
        if read.1 is Ok && calls.results.len() > 0 {
            assert(calls.results[calls.results.len() - 1] is Ok);
        }
        assert(calls_process(process, calls));
    }
    assert(may_add(before.type_space, component_schemas(spec), added));
}

/// Where nothing comes, all operations have been read.
proof fn lemma_nothing_comes<S, M, P, I, B, T>(
    before: GeneratorState,
    spec: OpenAPI,
    state: S,
    process: P,
    item: I,
    method: B,
    tags: T,
    after: GeneratorState,
) where
    P: Fn(Work<S>, usize) -> (Work<S>, Result<M, Error>),
    I: Fn(Work<S>, &M, InterfaceStyle, TagStyle) -> (Work<S>, Result<TokenStream, Error>),
    B: Fn(Work<S>, &M) -> (Work<S>, TokenStream),
    T: Fn(Work<S>, &Vec<M>, &Vec<&Tag>) -> (Work<S>, (TokenStream, TokenStream)),

    requires
        generation(before, spec, state, process, item, method, tags, after, None),
    ensures
        exists|work: Work<S>, methods: Vec<M>| #[trigger]
            may_be_read(before, spec, state, process, work, methods),
        !multipart_ready(spec) || may_render(spec, None) || !supported_style(before.settings),
{
    let added = choose|added: (TypeSpace, Result<(), TypifyError>)|
        {
            &&& #[trigger] may_add(before.type_space, component_schemas(spec), added)
            &&& added.1 is Ok
            &&& operated(
                before,
                spec,
                first_work(before, added.0, state),
                process,
                item,
                method,
                tags,
                after,
                None,
            )
        };
    let n = operations_of(spec.paths@).len();
    let read = choose|read: (Work<S>, Result<Vec<M>, Error>)|
        {
            &&& #[trigger] processed(process, n, first_work(before, added.0, state), read)
            &&& read.1 matches Ok(methods)
            &&& finished(
                before,
                spec,
                item,
                method,
                tags,
                methods,
                read.0,
                after,
                None,
            )
        };
    assert(may_be_read(before, spec, state, process, read.0, read.1.unwrap()));
}

/// Something comes, a client or a failure, where the forms of a document can be
/// rendered, their names are ASCII identifiers, and there is a form of client for
/// the settings.
pub proof fn law_something_comes<S, M, P, I, B, T>(
    before: GeneratorState,
    spec: OpenAPI,
    state: S,
    process: P,
    item: I,
    method: B,
    tags: T,
    after: GeneratorState,
    result: Option<Result<TokenStream, Error>>,
) where
    P: Fn(Work<S>, usize) -> (Work<S>, Result<M, Error>),
    I: Fn(Work<S>, &M, InterfaceStyle, TagStyle) -> (Work<S>, Result<TokenStream, Error>),
    B: Fn(Work<S>, &M) -> (Work<S>, TokenStream),
    T: Fn(Work<S>, &Vec<M>, &Vec<&Tag>) -> (Work<S>, (TokenStream, TokenStream)),

    requires
        generation(before, spec, state, process, item, method, tags, after, result),
        supported_style(before.settings),
        multipart_ready(spec),
        forall|i: int|
            0 <= i < document_parts(spec).len() ==> is_word(
                (#[trigger] document_parts(spec)[i]).name,
            ) && is_word(document_parts(spec)[i].form),
    ensures
        result is Some,
{
    if may_render(spec, None) {
        law_words_are_read(spec, None);
    }
}

/// The code of operations holds some items where the settings want them. With
/// positional arguments these are the methods of the client. Otherwise they are
/// its builders, and the methods that return them are written by `method`, one
/// for each operation, or the traits of the tags by `tags`.
pub open spec fn holds_items<S, M, B, T>(
    settings: Settings,
    all_tags: Seq<Tag>,
    method: B,
    tags: T,
    methods: Vec<M>,
    work: Work<S>,
    operations: Seq<Token>,
    items: Seq<Token>,
) -> bool where
    B: Fn(Work<S>, &M) -> (Work<S>, TokenStream),
    T: Fn(Work<S>, &Vec<M>, &Vec<&Tag>) -> (Work<S>, (TokenStream, TokenStream)),
 {
    match (settings.interface, settings.tag) {
        (InterfaceStyle::Positional, _) => operations == positional_tokens(items),
        (InterfaceStyle::Builder, TagStyle::Merged) => exists|written: (Work<S>, Vec<TokenStream>)|
            {
                &&& #[trigger] with_methods(method, methods@, work, written)
                &&& operations == builder_merged_tokens(joined_tokens(written.1@), items)
            },
        (InterfaceStyle::Builder, TagStyle::Separate) => exists|
            table: Vec<&Tag>,
            made: (Work<S>, (TokenStream, TokenStream)),
        |
            {
                &&& is_tag_table(all_tags, borrowed(table@))
                &&& #[trigger] tags.ensures((work, &methods, &table), made)
                &&& operations == builder_separate_tokens(
                    tokens(made.1.0),
                    tokens(made.1.1),
                    items,
                )
            },
    }
}

/// A client holds the code of every operation, once and in the order of the
/// document.
pub proof fn law_every_operation_is_written<S, M, P, I, B, T>(
    before: GeneratorState,
    spec: OpenAPI,
    state: S,
    process: P,
    item: I,
    method: B,
    tags: T,
    after: GeneratorState,
    result: Option<Result<TokenStream, Error>>,
) where
    P: Fn(Work<S>, usize) -> (Work<S>, Result<M, Error>),
    I: Fn(Work<S>, &M, InterfaceStyle, TagStyle) -> (Work<S>, Result<TokenStream, Error>),
    B: Fn(Work<S>, &M) -> (Work<S>, TokenStream),
    T: Fn(Work<S>, &Vec<M>, &Vec<&Tag>) -> (Work<S>, (TokenStream, TokenStream)),

    requires
        generation(before, spec, state, process, item, method, tags, after, result),
        result matches Some(Ok(_)),
    ensures
        objection(spec) is None,
        exists|
            reading: Calls<S, Result<M, Error>>,
            methods: Vec<M>,
            writing: Calls<S, Result<TokenStream, Error>>,
            items: Seq<TokenStream>,
            forms: Seq<Token>,
            operations: Seq<Token>,
        |
            {
                &&& #[trigger] calls_process(process, reading)
                &&& one_each(reading.results, methods@, operations_of(spec.paths@).len())
                &&& #[trigger] calls_item(
                    item,
                    before.settings.interface,
                    before.settings.tag,
                    methods@,
                    writing,
                )
                &&& one_each(writing.results, items, operations_of(spec.paths@).len())
                &&& holds_items(
                    before.settings,
                    spec.tags@,
                    method,
                    tags,
                    methods,
                    writing.works.last(),
                    operations,
                    #[trigger] joined_tokens(items),
                )
                &&& #[trigger] is_client(
                    before.settings,
                    spec,
                    after.type_space,
                    forms,
                    operations,
                    result.unwrap().unwrap(),
                )
            },
{
    let n = operations_of(spec.paths@).len();
    let settings = before.settings;
    let added = choose|added: (TypeSpace, Result<(), TypifyError>)|
        {
            &&& #[trigger] may_add(before.type_space, component_schemas(spec), added)
            &&& match added.1 {
                Err(cause) => {
                    &&& after == (GeneratorState { type_space: added.0, ..before })
                    &&& result == Some(Err::<TokenStream, Error>(Error::TypeError(cause)))
                },
                Ok(()) => operated(
                    before,
                    spec,
                    first_work(before, added.0, state),
                    process,
                    item,
                    method,
                    tags,
                    after,
                    result,
                ),
            }
        };
    let start = first_work(before, added.0, state);
    let read = choose|read: (Work<S>, Result<Vec<M>, Error>)|
        {
            &&& #[trigger] processed(process, n, start, read)
            &&& match read.1 {
                Err(error) => {
                    &&& after == worked(before, read.0)
                    &&& result == Some(Err::<TokenStream, Error>(error))
                },
                Ok(methods) => finished(
                    before,
                    spec,
                    item,
                    method,
                    tags,
                    methods,
                    read.0,
                    after,
                    result,
                ),
            }
        };
    let methods = read.1.unwrap();
    let reading = choose|calls: Calls<S, Result<M, Error>>|
        {
            &&& #[trigger] calls_process(process, calls)
            &&& leads(calls, start, read.0)
            &&& until_failure(calls.results, n)
            &&& gathered(calls.results, read.1)
        };
    lemma_all_gathered(reading.results, methods, n);
    let stream = result.unwrap().unwrap();
    let (forms, done) = choose|forms: Seq<Token>, done: (Work<S>, Result<Seq<Token>, Error>)|
        {
            &&& multipart_ready(spec)
            &&& #[trigger] may_render(spec, Some(forms))
            &&& #[trigger] written(
                settings,
                spec.tags@,
                item,
                method,
                tags,
                methods,
                read.0,
                done,
            )
            &&& after == worked(before, done.0)
            &&& match done.1 {
                Err(error) => result.unwrap() == Err::<TokenStream, Error>(error),
                Ok(operations) => result.unwrap() matches Ok(stream) && is_client(
                    settings,
                    spec,
                    done.0.type_space,
                    forms,
                    operations,
                    stream,
                ),
            }
        };
    let operations = done.1.unwrap();
    lemma_items_are_held(
        settings,
        spec.tags@,
        item,
        method,
        tags,
        methods,
        read.0,
        done.0,
        operations,
    );
    let items = choose|items: (Work<S>, Result<Vec<TokenStream>, Error>)|
        {
            &&& #[trigger] itemized(
                item,
                settings.interface,
                settings.tag,
                methods@,
                read.0,
                items,
            )
            &&& items.1 matches Ok(streams)
            &&& holds_items(
                settings,
                spec.tags@,
                method,
                tags,
                methods,
                items.0,
                operations,
                joined_tokens(streams@),
            )
        };
    let streams = items.1.unwrap();
    let writing = choose|calls: Calls<S, Result<TokenStream, Error>>|
        {
            &&& #[trigger] calls_item(item, settings.interface, settings.tag, methods@, calls)
            &&& leads(calls, read.0, items.0)
            &&& until_failure(calls.results, methods@.len())
            &&& gathered(calls.results, items.1)
        };
    lemma_all_gathered(writing.results, streams, methods@.len());
    assert(calls_process(process, reading));
    assert(calls_item(item, settings.interface, settings.tag, methods@, writing));
    assert(holds_items(
        settings,
        spec.tags@,
        method,
        tags,
        methods,
        writing.works.last(),
        operations,
        joined_tokens(streams@),
    ));
    assert(is_client(settings, spec, after.type_space, forms, operations, stream));
}

/// The code of operations holds the items that were written for it.
proof fn lemma_items_are_held<S, M, I, B, T>(
    settings: Settings,
    all_tags: Seq<Tag>,
    item: I,
    method: B,
    tags: T,
    methods: Vec<M>,
    start: Work<S>,
    work: Work<S>,
    operations: Seq<Token>,
) where
    I: Fn(Work<S>, &M, InterfaceStyle, TagStyle) -> (Work<S>, Result<TokenStream, Error>),
    B: Fn(Work<S>, &M) -> (Work<S>, TokenStream),
    T: Fn(Work<S>, &Vec<M>, &Vec<&Tag>) -> (Work<S>, (TokenStream, TokenStream)),

    requires
        written(
            settings,
            all_tags,
            item,
            method,
            tags,
            methods,
            start,
            (work, Ok::<Seq<Token>, Error>(operations)),
        ),
    ensures
        exists|items: (Work<S>, Result<Vec<TokenStream>, Error>)|
            {
                &&& #[trigger] itemized(
                    item,
                    settings.interface,
                    settings.tag,
                    methods@,
                    start,
                    items,
                )
                &&& items.1 matches Ok(streams)
                &&& holds_items(
                    settings,
                    all_tags,
                    method,
                    tags,
                    methods,
                    items.0,
                    operations,
                    joined_tokens(streams@),
                )
            },
{
}

/// Each of `n` results is one of some things, in their order.
pub open spec fn one_each<A>(results: Seq<Result<A, Error>>, all: Seq<A>, n: nat) -> bool {
    &&& results.len() == n
    &&& all.len() == n
    &&& forall|i: int| 0 <= i < n ==> #[trigger] results[i] == Ok::<A, Error>(all[i])
}

/// Where nothing has failed there is a result for each thing.
pub(crate) proof fn lemma_all_gathered<A>(results: Seq<Result<A, Error>>, all: Vec<A>, n: nat)
    requires
        until_failure(results, n),
        gathered(results, Ok(all)),
    ensures
        one_each(results, all@, n),
{
    if results.len() < n {
        assert(results[results.len() - 1] is Ok);
    }
}

} // verus!
