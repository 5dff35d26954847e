//! What holds of every run of the generator.
use crate::client::{
    builder_merged_tokens, builder_separate_tokens, client_tokens, joined_tokens,
    positional_tokens,
};
use crate::document::{operations_of, OpenAPI, Tag};
use crate::error::Error;
use crate::generator::{
    component_schemas, default_generator, finished, first_work, generation, is_client,
    lemma_all_gathered, new_generator, operated, worked, written, GeneratorState,
};
use crate::multipart_code::{may_render, multipart_ready};
use crate::operations::{
    builder_separate, calls_item, calls_method, calls_process, gathered, itemized, leads,
    processed, until_failure, with_methods, Calls, Work,
};
use crate::settings::{initial_settings, type_settings_for, InterfaceStyle, Settings, TagStyle};
use crate::tags::{borrowed, is_tag_table};
use crate::tokens::{tokens, Token};
use crate::typespace::{empty_space, may_add, type_definitions};
use crate::validate::objection;
use proc_macro2::TokenStream;
use typify::Error as TypifyError;
use typify::TypeSpace;
use vstd::prelude::*;

verus! {

/// The schemas of a document are all those of its components, in their order, each
/// under its name.
pub proof fn law_all_components_are_added(spec: OpenAPI)
    ensures
        spec.components is None ==> component_schemas(spec).len() == 0,
        spec.components matches Some(components) ==> {
            &&& component_schemas(spec).len() == components.schemas@.len()
            &&& forall|i: int|
                0 <= i < components.schemas@.len() ==> (#[trigger] component_schemas(spec)[i]).0
                    == components.schemas@[i].0@ && component_schemas(spec)[i].1
                    == components.schemas@[i].1
        },
{
}

/// A generator begins without types and without needs, with the settings that it was
/// given.
pub proof fn law_a_generator_begins_empty(settings: Settings)
    ensures
        new_generator(settings).type_space == empty_space(type_settings_for(settings)),
        new_generator(settings).settings == settings,
        !new_generator(settings).uses_futures,
        !new_generator(settings).uses_websockets,
        default_generator().settings == initial_settings(),
        !default_generator().uses_futures,
        !default_generator().uses_websockets,
{
}

/// Operations are read one after the other, from the first on, each with the work
/// that the one before it has left.
pub open spec fn reads_in_order<S, M, P>(
    process: P,
    start: Work<S>,
    reading: Calls<S, Result<M, Error>>,
) -> bool where P: Fn(Work<S>, usize) -> (Work<S>, Result<M, Error>) {
    &&& reading.works.len() == reading.results.len() + 1
    &&& reading.works[0] == start
    &&& forall|i: int|
        0 <= i < reading.results.len() ==> process.ensures(
            (reading.works[i], i as usize),
            (reading.works[i + 1], #[trigger] reading.results[i]),
        )
}

/// Operations are written one after the other, from the first on, each with the work
/// that the one before it has left, and all in the same style.
pub open spec fn writes_in_order<S, M, I>(
    item: I,
    interface: InterfaceStyle,
    tag: TagStyle,
    methods: Seq<M>,
    start: Work<S>,
    writing: Calls<S, Result<TokenStream, Error>>,
) -> bool where
    I: Fn(Work<S>, &M, InterfaceStyle, TagStyle) -> (Work<S>, Result<TokenStream, Error>),
 {
    &&& writing.works.len() == writing.results.len() + 1
    &&& writing.works[0] == start
    &&& writing.results.len() <= methods.len()
    &&& forall|i: int|
        0 <= i < writing.results.len() ==> item.ensures(
            (writing.works[i], &methods[i], interface, tag),
            (writing.works[i + 1], #[trigger] writing.results[i]),
        )
}

/// The last of some results is a failure, and none before it is.
pub open spec fn fails_at_last<A>(results: Seq<Result<A, Error>>, error: Error) -> bool {
    &&& results.len() > 0
    &&& results[results.len() - 1] == Err::<A, Error>(error)
    &&& forall|i: int| 0 <= i < results.len() - 1 ==> (#[trigger] results[i]) is Ok
}

/// There is a result for each of `n` things, and each is one of some values.
pub open spec fn all_succeed<A>(results: Seq<Result<A, Error>>, values: Seq<A>, n: nat) -> bool {
    &&& results.len() == n
    &&& values.len() == n
    &&& forall|i: int| 0 <= i < n ==> #[trigger] results[i] == Ok::<A, Error>(values[i])
}

/// The generator has taken back some work: it has its types, and it needs what it
/// needed before and what the work needs. Its settings are what they were.
pub open spec fn took_back<S>(before: GeneratorState, work: Work<S>, after: GeneratorState) -> bool {
    &&& after.type_space == work.type_space
    &&& after.settings == before.settings
    &&& after.uses_futures <==> before.uses_futures || work.uses_futures
    &&& after.uses_websockets <==> before.uses_websockets || work.uses_websockets
}

/// How the operations of a document may end, once they have been read.
pub struct Ending<S, M> {
    /// What came of adding the types of the components.
    pub space: TypeSpace,
    /// How the operations were read.
    pub reading: Calls<S, Result<M, Error>>,
    /// What was read.
    pub methods: Vec<M>,
}

/// The types of the components were added, and all operations were read.
pub open spec fn all_read<S, M, P>(
    before: GeneratorState,
    spec: OpenAPI,
    state: S,
    process: P,
    ending: Ending<S, M>,
) -> bool where P: Fn(Work<S>, usize) -> (Work<S>, Result<M, Error>) {
    &&& exists|outcome: Result<(), TypifyError>|
        {
            &&& #[trigger] may_add(
                before.type_space,
                component_schemas(spec),
                (ending.space, outcome),
            )
            &&& outcome is Ok
        }
    &&& reads_in_order(
        process,
        Work {
            state,
            type_space: ending.space,
            uses_futures: before.uses_futures,
            uses_websockets: before.uses_websockets,
        },
        ending.reading,
    )
    &&& all_succeed(ending.reading.results, ending.methods@, operations_of(spec.paths@).len())
}

/// A document with which something is wrong is refused with what is wrong, and the
/// generator stays as it was.
pub proof fn law_refusal<S, M, P, I, B, T>(
    before: GeneratorState,
    spec: OpenAPI,
    state: S,
    process: P,
    item: I,
    method: B,
    tags: T,
    after: GeneratorState,
    result: Option<Result<TokenStream, Error>>,
) where
    P: Fn(Work<S>, usize) -> (Work<S>, Result<M, Error>),
    I: Fn(Work<S>, &M, InterfaceStyle, TagStyle) -> (Work<S>, Result<TokenStream, Error>),
    B: Fn(Work<S>, &M) -> (Work<S>, TokenStream),
    T: Fn(Work<S>, &Vec<M>, &Vec<&Tag>) -> (Work<S>, (TokenStream, TokenStream)),

    requires
        generation(before, spec, state, process, item, method, tags, after, result),
        objection(spec) is Some,
    ensures
        after.type_space == before.type_space,
        after.settings == before.settings,
        after.uses_futures == before.uses_futures,
        after.uses_websockets == before.uses_websockets,
        result matches Some(Err(Error::UnexpectedFormat(what))) && what@ == objection(
            spec,
        ).unwrap(),
{
}

/// What came of adding the types of the components of a document.
proof fn lemma_added<S, M, P, I, B, T>(
    before: GeneratorState,
    spec: OpenAPI,
    state: S,
    process: P,
    item: I,
    method: B,
    tags: T,
    after: GeneratorState,
    result: Option<Result<TokenStream, Error>>,
) -> (added: (TypeSpace, Result<(), TypifyError>)) where
    P: Fn(Work<S>, usize) -> (Work<S>, Result<M, Error>),
    I: Fn(Work<S>, &M, InterfaceStyle, TagStyle) -> (Work<S>, Result<TokenStream, Error>),
    B: Fn(Work<S>, &M) -> (Work<S>, TokenStream),
    T: Fn(Work<S>, &Vec<M>, &Vec<&Tag>) -> (Work<S>, (TokenStream, TokenStream)),

    requires
        generation(before, spec, state, process, item, method, tags, after, result),
        objection(spec) is None,
    ensures
        may_add(before.type_space, component_schemas(spec), added),
        match added.1 {
            Err(cause) => {
                &&& after == (GeneratorState { type_space: added.0, ..before })
                &&& result == Some(Err::<TokenStream, Error>(Error::TypeError(cause)))
            },
            Ok(()) => operated(
                before,
                spec,
                first_work(before, added.0, state),
                process,
                item,
                method,
                tags,
                after,
                result,
            ),
        },
{
    choose|added: (TypeSpace, Result<(), TypifyError>)|
        {
            &&& #[trigger] may_add(before.type_space, component_schemas(spec), added)
            &&& match added.1 {
                Err(cause) => {
                    &&& after == (GeneratorState { type_space: added.0, ..before })
                    &&& result == Some(Err::<TokenStream, Error>(Error::TypeError(cause)))
                },
                Ok(()) => operated(
                    before,
                    spec,
                    first_work(before, added.0, state),
                    process,
                    item,
                    method,
                    tags,
                    after,
                    result,
                ),
            }
        }
}

/// How the operations of a document were read.
proof fn lemma_read<S, M, P, I, B, T>(
    before: GeneratorState,
    spec: OpenAPI,
    start: Work<S>,
    process: P,
    item: I,
    method: B,
    tags: T,
    after: GeneratorState,
    result: Option<Result<TokenStream, Error>>,
) -> (read: ((Work<S>, Result<Vec<M>, Error>), Calls<S, Result<M, Error>>)) where
    P: Fn(Work<S>, usize) -> (Work<S>, Result<M, Error>),
    I: Fn(Work<S>, &M, InterfaceStyle, TagStyle) -> (Work<S>, Result<TokenStream, Error>),
    B: Fn(Work<S>, &M) -> (Work<S>, TokenStream),
    T: Fn(Work<S>, &Vec<M>, &Vec<&Tag>) -> (Work<S>, (TokenStream, TokenStream)),

    requires
        operated(before, spec, start, process, item, method, tags, after, result),
    ensures
        reads_in_order(process, start, read.1),
        read.1.works.last() == read.0.0,
        match read.0.1 {
            Err(error) => {
                &&& fails_at_last(read.1.results, error)
                &&& read.1.results.len() <= operations_of(spec.paths@).len()
                &&& took_back(before, read.0.0, after)
                &&& result == Some(Err::<TokenStream, Error>(error))
            },
            Ok(methods) => {
                &&& all_succeed(read.1.results, methods@, operations_of(spec.paths@).len())
                &&& finished(
                    before,
                    spec,
                    item,
                    method,
                    tags,
                    methods,
                    read.0.0,
                    after,
                    result,
                )
            },
        },
{
    let n = operations_of(spec.paths@).len();
    let read = choose|read: (Work<S>, Result<Vec<M>, Error>)|
        {
            &&& #[trigger] processed(process, n, start, read)
            &&& match read.1 {
                Err(error) => {
                    &&& after == worked(before, read.0)
                    &&& result == Some(Err::<TokenStream, Error>(error))
                },
                Ok(methods) => finished(
                    before,
                    spec,
                    item,
                    method,
                    tags,
                    methods,
                    read.0,
                    after,
                    result,
                ),
            }
        };
    let calls = choose|calls: Calls<S, Result<M, Error>>|
        {
            &&& #[trigger] calls_process(process, calls)
            &&& leads(calls, start, read.0)
            &&& until_failure(calls.results, n)
            &&& gathered(calls.results, read.1)
        };
    if let Ok(methods) = read.1 {
        lemma_all_gathered(calls.results, methods, n);
    }
    (read, calls)
}

/// A schema of the document is refused: its types stay as far as they were added, and
/// nothing else has changed.
pub open spec fn types_fail(
    before: GeneratorState,
    spec: OpenAPI,
    after: GeneratorState,
    error: Error,
) -> bool {
    exists|added: (TypeSpace, Result<(), TypifyError>)|
        {
            &&& #[trigger] may_add(before.type_space, component_schemas(spec), added)
            &&& added.1 matches Err(cause)
            &&& error == Error::TypeError(cause)
            &&& after.type_space == added.0
            &&& after.settings == before.settings
            &&& after.uses_futures == before.uses_futures
            &&& after.uses_websockets == before.uses_websockets
        }
}

/// An operation cannot be read.
pub open spec fn reading_fails<S, M, P>(
    before: GeneratorState,
    spec: OpenAPI,
    state: S,
    process: P,
    after: GeneratorState,
    error: Error,
) -> bool where P: Fn(Work<S>, usize) -> (Work<S>, Result<M, Error>) {
    exists|added: (TypeSpace, Result<(), TypifyError>), reading: Calls<S, Result<M, Error>>|
        {
            &&& #[trigger] may_add(before.type_space, component_schemas(spec), added)
            &&& added.1 is Ok
            &&& #[trigger] reads_in_order(
                process,
                Work {
                    state,
                    type_space: added.0,
                    uses_futures: before.uses_futures,
                    uses_websockets: before.uses_websockets,
                },
                reading,
            )
            &&& reading.results.len() <= operations_of(spec.paths@).len()
            &&& fails_at_last(reading.results, error)
            &&& took_back(before, reading.works.last(), after)
        }
}

/// An operation cannot be written.
pub open spec fn writing_fails<S, M, P, I>(
    before: GeneratorState,
    spec: OpenAPI,
    state: S,
    process: P,
    item: I,
    after: GeneratorState,
    error: Error,
) -> bool where
    P: Fn(Work<S>, usize) -> (Work<S>, Result<M, Error>),
    I: Fn(Work<S>, &M, InterfaceStyle, TagStyle) -> (Work<S>, Result<TokenStream, Error>),
 {
    exists|ending: Ending<S, M>, writing: Calls<S, Result<TokenStream, Error>>|
        {
            &&& #[trigger] all_read(before, spec, state, process, ending)
            &&& multipart_ready(spec)
            &&& #[trigger] writes_in_order(
                item,
                before.settings.interface,
                before.settings.tag,
                ending.methods@,
                ending.reading.works.last(),
                writing,
            )
            &&& fails_at_last(writing.results, error)
            &&& took_back(before, writing.works.last(), after)
        }
}

/// Whatever fails with a document with which nothing is wrong is reported, and what
/// was done is kept. A schema that is refused is reported first. After that it is the
/// first operation that cannot be read, and after that the first that cannot be
/// written.
pub proof fn law_failure_in_detail<S, M, P, I, B, T>(
    before: GeneratorState,
    spec: OpenAPI,
    state: S,
    process: P,
    item: I,
    method: B,
    tags: T,
    after: GeneratorState,
    result: Option<Result<TokenStream, Error>>,
    error: Error,
) where
    P: Fn(Work<S>, usize) -> (Work<S>, Result<M, Error>),
    I: Fn(Work<S>, &M, InterfaceStyle, TagStyle) -> (Work<S>, Result<TokenStream, Error>),
    B: Fn(Work<S>, &M) -> (Work<S>, TokenStream),
    T: Fn(Work<S>, &Vec<M>, &Vec<&Tag>) -> (Work<S>, (TokenStream, TokenStream)),

    requires
        generation(before, spec, state, process, item, method, tags, after, result),
        objection(spec) is None,
        result == Some(Err::<TokenStream, Error>(error)),
    ensures
        types_fail(before, spec, after, error) || reading_fails(
            before,
            spec,
            state,
            process,
            after,
            error,
        ) || writing_fails(before, spec, state, process, item, after, error),
{
    let added = lemma_added(before, spec, state, process, item, method, tags, after, result);
    if added.1 is Ok {
        let start = first_work(before, added.0, state);
        let (read, reading) = lemma_read(
            before,
            spec,
            start,
            process,
            item,
            method,
            tags,
            after,
            result,
        );
        match read.1 {
            Err(e) => {
                assert(reads_in_order(process, start, reading));
            },
            Ok(methods) => {
                let ending = Ending { space: added.0, reading, methods };
                assert(may_add(
                    before.type_space,
                    component_schemas(spec),
                    (ending.space, added.1),
                ));
                assert(all_read(before, spec, state, process, ending));
                let (forms, done) = choose|
                    forms: Seq<Token>,
                    done: (Work<S>, Result<Seq<Token>, Error>),
                |
                    {
                        &&& multipart_ready(spec)
                        &&& #[trigger] may_render(spec, Some(forms))
                        &&& #[trigger] written(
                            before.settings,
                            spec.tags@,
                            item,
                            method,
                            tags,
                            methods,
                            read.0,
                            done,
                        )
                        &&& after == worked(before, done.0)
                        &&& done.1 == Err::<Seq<Token>, Error>(error)
                    };
                let writing = lemma_writing_fails(
                    before.settings,
                    spec.tags@,
                    item,
                    method,
                    tags,
                    methods,
                    read.0,
                    done.0,
                    error,
                );
                assert(writes_in_order(
                    item,
                    before.settings.interface,
                    before.settings.tag,
                    ending.methods@,
                    ending.reading.works.last(),
                    writing,
                ));
            },
        }
    }
}

/// How the writing of operations failed.
proof fn lemma_writing_fails<S, M, I, B, T>(
    settings: Settings,
    all_tags: Seq<Tag>,
    item: I,
    method: B,
    tags: T,
    methods: Vec<M>,
    start: Work<S>,
    end: Work<S>,
    error: Error,
) -> (writing: Calls<S, Result<TokenStream, Error>>) where
    I: Fn(Work<S>, &M, InterfaceStyle, TagStyle) -> (Work<S>, Result<TokenStream, Error>),
    B: Fn(Work<S>, &M) -> (Work<S>, TokenStream),
    T: Fn(Work<S>, &Vec<M>, &Vec<&Tag>) -> (Work<S>, (TokenStream, TokenStream)),

    requires
        written(
            settings,
            all_tags,
            item,
            method,
            tags,
            methods,
            start,
            (end, Err::<Seq<Token>, Error>(error)),
        ),
    ensures
        writes_in_order(item, settings.interface, settings.tag, methods@, start, writing),
        fails_at_last(writing.results, error),
        writing.works.last() == end,
{
    let items = choose|items: (Work<S>, Result<Vec<TokenStream>, Error>)|
        {
            &&& #[trigger] itemized(
                item,
                settings.interface,
                settings.tag,
                methods@,
                start,
                items,
            )
            &&& items.0 == end
            &&& items.1 == Err::<Vec<TokenStream>, Error>(error)
        };
    choose|calls: Calls<S, Result<TokenStream, Error>>|
        {
            &&& #[trigger] calls_item(item, settings.interface, settings.tag, methods@, calls)
            &&& leads(calls, start, items.0)
            &&& until_failure(calls.results, methods@.len())
            &&& gathered(calls.results, items.1)
        }
}

/// The operations of a client, put together as the settings want it: their methods as
/// they are; or their builders, with the methods that return them, one for each
/// operation; or their builders, with the traits that were written for the tags.
pub open spec fn put_together<S, M, B, T>(
    settings: Settings,
    all_tags: Seq<Tag>,
    method: B,
    tags: T,
    methods: Vec<M>,
    items: Seq<TokenStream>,
    start: Work<S>,
    end: Work<S>,
    operations: Seq<Token>,
) -> bool where
    B: Fn(Work<S>, &M) -> (Work<S>, TokenStream),
    T: Fn(Work<S>, &Vec<M>, &Vec<&Tag>) -> (Work<S>, (TokenStream, TokenStream)),
 {
    if settings.interface is Positional {
        &&& settings.tag is Merged
        &&& end == start
        &&& operations == positional_tokens(joined_tokens(items))
    } else if settings.tag is Merged {
        exists|calls: Calls<S, TokenStream>|
            {
                &&& calls.works.len() == methods@.len() + 1
                &&& calls.results.len() == methods@.len()
                &&& calls.works[0] == start
                &&& calls.works[methods@.len() as int] == end
                &&& forall|i: int|
                    0 <= i < methods@.len() ==> method.ensures(
                        (calls.works[i], &methods@[i]),
                        (calls.works[i + 1], #[trigger] calls.results[i]),
                    )
                &&& operations == builder_merged_tokens(
                    #[trigger] joined_tokens(calls.results),
                    joined_tokens(items),
                )
            }
    } else {
        exists|table: Vec<&Tag>, traits: TokenStream, preludes: TokenStream|
            {
                &&& is_tag_table(all_tags, borrowed(table@))
                &&& #[trigger] tags.ensures((start, &methods, &table), (end, (traits, preludes)))
                &&& operations == builder_separate_tokens(
                    tokens(traits),
                    tokens(preludes),
                    joined_tokens(items),
                )
            }
    }
}

/// How the operations of a client were put together.
proof fn lemma_put_together<S, M, I, B, T>(
    settings: Settings,
    all_tags: Seq<Tag>,
    item: I,
    method: B,
    tags: T,
    methods: Vec<M>,
    start: Work<S>,
    end: Work<S>,
    operations: Seq<Token>,
) -> (written_items: (Calls<S, Result<TokenStream, Error>>, Vec<TokenStream>)) where
    I: Fn(Work<S>, &M, InterfaceStyle, TagStyle) -> (Work<S>, Result<TokenStream, Error>),
    B: Fn(Work<S>, &M) -> (Work<S>, TokenStream),
    T: Fn(Work<S>, &Vec<M>, &Vec<&Tag>) -> (Work<S>, (TokenStream, TokenStream)),

    requires
        written(
            settings,
            all_tags,
            item,
            method,
            tags,
            methods,
            start,
            (end, Ok::<Seq<Token>, Error>(operations)),
        ),
    ensures
        writes_in_order(
            item,
            settings.interface,
            settings.tag,
            methods@,
            start,
            written_items.0,
        ),
        all_succeed(written_items.0.results, written_items.1@, methods@.len()),
        put_together(
            settings,
            all_tags,
            method,
            tags,
            methods,
            written_items.1@,
            written_items.0.works.last(),
            end,
            operations,
        ),
{
    let done = (end, Ok::<Seq<Token>, Error>(operations));
    match (settings.interface, settings.tag) {
        (InterfaceStyle::Positional, TagStyle::Merged) => {
            let items = choose|items: (Work<S>, Result<Vec<TokenStream>, Error>)|
                {
                    &&& #[trigger] itemized(
                        item,
                        InterfaceStyle::Positional,
                        TagStyle::Merged,
                        methods@,
                        start,
                        items,
                    )
                    &&& done.0 == items.0
                    &&& done.1 == (match items.1 {
                        Ok(streams) => Ok(positional_tokens(joined_tokens(streams@))),
                        Err(error) => Err(error),
                    })
                };
            let writing = lemma_itemized(item, settings, methods@, start, items);
            (writing, items.1.unwrap())
        },
        (InterfaceStyle::Positional, TagStyle::Separate) => { arbitrary() },
        (InterfaceStyle::Builder, TagStyle::Merged) => {
            let items = choose|items: (Work<S>, Result<Vec<TokenStream>, Error>)|
                {
                    &&& #[trigger] itemized(
                        item,
                        InterfaceStyle::Builder,
                        TagStyle::Merged,
                        methods@,
                        start,
                        items,
                    )
                    &&& items.1 matches Ok(structs)
                    &&& exists|made: (Work<S>, Vec<TokenStream>)|
                        {
                            &&& #[trigger] with_methods(method, methods@, items.0, made)
                            &&& done.0 == made.0
                            &&& done.1 == Ok::<Seq<Token>, Error>(
                                builder_merged_tokens(
                                    joined_tokens(made.1@),
                                    joined_tokens(structs@),
                                ),
                            )
                        }
                };
            let writing = lemma_itemized(item, settings, methods@, start, items);
            let structs = items.1.unwrap();
            let made = choose|made: (Work<S>, Vec<TokenStream>)|
                {
                    &&& #[trigger] with_methods(method, methods@, items.0, made)
                    &&& done.0 == made.0
                    &&& done.1 == Ok::<Seq<Token>, Error>(
                        builder_merged_tokens(joined_tokens(made.1@), joined_tokens(structs@)),
                    )
                };
            let calls = choose|calls: Calls<S, TokenStream>|
                {
                    &&& #[trigger] calls_method(method, methods@, calls)
                    &&& leads(calls, items.0, made.0)
                    &&& calls.results.len() == methods@.len()
                    &&& calls.results == made.1@
                };
            assert(operations == builder_merged_tokens(
                joined_tokens(calls.results),
                joined_tokens(structs@),
            ));
            (writing, structs)
        },
        (InterfaceStyle::Builder, TagStyle::Separate) => {
            let table = choose|table: Vec<&Tag>|
                {
                    &&& is_tag_table(all_tags, borrowed(table@))
                    &&& #[trigger] builder_separate(item, tags, methods, table, start, done)
                };
            let items = choose|items: (Work<S>, Result<Vec<TokenStream>, Error>)|
                {
                    &&& #[trigger] itemized(
                        item,
                        InterfaceStyle::Builder,
                        TagStyle::Separate,
                        methods@,
                        start,
                        items,
                    )
                    &&& items.1 matches Ok(structs)
                    &&& exists|made: (Work<S>, (TokenStream, TokenStream))|
                        {
                            &&& #[trigger] tags.ensures((items.0, &methods, &table), made)
                            &&& done.0 == made.0
                            &&& done.1 == Ok::<Seq<Token>, Error>(
                                builder_separate_tokens(
                                    tokens(made.1.0),
                                    tokens(made.1.1),
                                    joined_tokens(structs@),
                                ),
                            )
                        }
                };
            let writing = lemma_itemized(item, settings, methods@, start, items);
            let structs = items.1.unwrap();
            let made = choose|made: (Work<S>, (TokenStream, TokenStream))|
                {
                    &&& #[trigger] tags.ensures((items.0, &methods, &table), made)
                    &&& done.0 == made.0
                    &&& done.1 == Ok::<Seq<Token>, Error>(
                        builder_separate_tokens(
                            tokens(made.1.0),
                            tokens(made.1.1),
                            joined_tokens(structs@),
                        ),
                    )
                };
            assert(made == (end, (made.1.0, made.1.1)));
            assert(tags.ensures((items.0, &methods, &table), (end, (made.1.0, made.1.1))));
            (writing, structs)
        },
    }
}

/// How the items of operations were written.
proof fn lemma_itemized<S, M, I>(
    item: I,
    settings: Settings,
    methods: Seq<M>,
    start: Work<S>,
    items: (Work<S>, Result<Vec<TokenStream>, Error>),
) -> (writing: Calls<S, Result<TokenStream, Error>>) where
    I: Fn(Work<S>, &M, InterfaceStyle, TagStyle) -> (Work<S>, Result<TokenStream, Error>),

    requires
        itemized(item, settings.interface, settings.tag, methods, start, items),
        items.1 is Ok,
    ensures
        writes_in_order(item, settings.interface, settings.tag, methods, start, writing),
        all_succeed(writing.results, items.1.unwrap()@, methods.len()),
        writing.works.last() == items.0,
{
    let calls = choose|calls: Calls<S, Result<TokenStream, Error>>|
        {
            &&& #[trigger] calls_item(item, settings.interface, settings.tag, methods, calls)
            &&& leads(calls, start, items.0)
            &&& until_failure(calls.results, methods.len())
            &&& gathered(calls.results, items.1)
        };
    lemma_all_gathered(calls.results, items.1.unwrap(), methods.len());
    calls
}

/// A client comes of a document with which nothing is wrong. The types of its
/// components were added, and all its operations were read and then written, each
/// once, in the order of the document. The client holds the types with which this
/// has ended, the forms of the document and all that was written; and the generator
/// has these types, and needs what the operations need.
pub proof fn law_client_in_detail<S, M, P, I, B, T>(
    before: GeneratorState,
    spec: OpenAPI,
    state: S,
    process: P,
    item: I,
    method: B,
    tags: T,
    after: GeneratorState,
    result: Option<Result<TokenStream, Error>>,
    stream: TokenStream,
) where
    P: Fn(Work<S>, usize) -> (Work<S>, Result<M, Error>),
    I: Fn(Work<S>, &M, InterfaceStyle, TagStyle) -> (Work<S>, Result<TokenStream, Error>),
    B: Fn(Work<S>, &M) -> (Work<S>, TokenStream),
    T: Fn(Work<S>, &Vec<M>, &Vec<&Tag>) -> (Work<S>, (TokenStream, TokenStream)),

    requires
        generation(before, spec, state, process, item, method, tags, after, result),
        result == Some(Ok::<TokenStream, Error>(stream)),
    ensures
        objection(spec) is None,
        multipart_ready(spec),
        !(before.settings.interface is Positional && before.settings.tag is Separate),
        exists|
            ending: Ending<S, M>,
            writing: Calls<S, Result<TokenStream, Error>>,
            items: Vec<TokenStream>,
            end: Work<S>,
            types: Seq<Token>,
            forms: Seq<Token>,
            operations: Seq<Token>,
        |
            {
                &&& #[trigger] all_read(before, spec, state, process, ending)
                &&& writes_in_order(
                    item,
                    before.settings.interface,
                    before.settings.tag,
                    ending.methods@,
                    ending.reading.works.last(),
                    writing,
                )
                &&& all_succeed(writing.results, items@, operations_of(spec.paths@).len())
                &&& #[trigger] put_together(
                    before.settings,
                    spec.tags@,
                    method,
                    tags,
                    ending.methods,
                    items@,
                    writing.works.last(),
                    end,
                    operations,
                )
                &&& type_definitions(end.type_space).unwrap().contains(types)
                &&& may_render(spec, Some(forms))
                &&& tokens(stream) == #[trigger] client_tokens(
                    spec.info,
                    before.settings.inner_type,
                    types,
                    forms,
                    operations,
                )
                &&& took_back(before, end, after)
            },
{
    let added = lemma_added(before, spec, state, process, item, method, tags, after, result);
    let start = first_work(before, added.0, state);
    let (read, reading) = lemma_read(
        before,
        spec,
        start,
        process,
        item,
        method,
        tags,
        after,
        result,
    );
    let methods = read.1.unwrap();
    let ending = Ending { space: added.0, reading, methods };
    assert(may_add(before.type_space, component_schemas(spec), (ending.space, added.1)));
    assert(all_read(before, spec, state, process, ending));
    let (forms, done) = choose|forms: Seq<Token>, done: (Work<S>, Result<Seq<Token>, Error>)|
        {
            &&& multipart_ready(spec)
            &&& #[trigger] may_render(spec, Some(forms))
            &&& #[trigger] written(
                before.settings,
                spec.tags@,
                item,
                method,
                tags,
                methods,
                read.0,
                done,
            )
            &&& after == worked(before, done.0)
            &&& done.1 matches Ok(operations)
            &&& is_client(
                before.settings,
                spec,
                done.0.type_space,
                forms,
                operations,
                stream,
            )
        };
    let operations = done.1.unwrap();
    let (writing, items) = lemma_put_together(
        before.settings,
        spec.tags@,
        item,
        method,
        tags,
        methods,
        read.0,
        done.0,
        operations,
    );
    let types = choose|types: Seq<Token>|
        {
            &&& type_definitions(done.0.type_space).unwrap().contains(types)
            &&& tokens(stream) == #[trigger] client_tokens(
                spec.info,
                before.settings.inner_type,
                types,
                forms,
                operations,
            )
        };
    assert(put_together(
        before.settings,
        spec.tags@,
        method,
        tags,
        ending.methods,
        items@,
        writing.works.last(),
        done.0,
        operations,
    ));
    assert(tokens(stream) == client_tokens(
        spec.info,
        before.settings.inner_type,
        types,
        forms,
        operations,
    ));
}

/// Nothing comes only of a document with which nothing is wrong, after all its
/// operations have been read: where its forms cannot be rendered or one of their names
/// is refused, or where positional arguments are wanted with separate tags.
pub proof fn law_nothing_in_detail<S, M, P, I, B, T>(
    before: GeneratorState,
    spec: OpenAPI,
    state: S,
    process: P,
    item: I,
    method: B,
    tags: T,
    after: GeneratorState,
    result: Option<Result<TokenStream, Error>>,
) where
    P: Fn(Work<S>, usize) -> (Work<S>, Result<M, Error>),
    I: Fn(Work<S>, &M, InterfaceStyle, TagStyle) -> (Work<S>, Result<TokenStream, Error>),
    B: Fn(Work<S>, &M) -> (Work<S>, TokenStream),
    T: Fn(Work<S>, &Vec<M>, &Vec<&Tag>) -> (Work<S>, (TokenStream, TokenStream)),

    requires
        generation(before, spec, state, process, item, method, tags, after, result),
        result is None,
    ensures
        objection(spec) is None,
        exists|ending: Ending<S, M>|
            {
                &&& #[trigger] all_read(before, spec, state, process, ending)
                &&& took_back(before, ending.reading.works.last(), after)
            },
        !multipart_ready(spec) || may_render(spec, None) || (before.settings.interface is Positional
            && before.settings.tag is Separate),
{
    let added = lemma_added(before, spec, state, process, item, method, tags, after, result);
    let start = first_work(before, added.0, state);
    let (read, reading) = lemma_read(
        before,
        spec,
        start,
        process,
        item,
        method,
        tags,
        after,
        result,
    );
    let ending = Ending { space: added.0, reading, methods: read.1.unwrap() };
    assert(may_add(before.type_space, component_schemas(spec), (ending.space, added.1)));
    assert(all_read(before, spec, state, process, ending));
}

} // verus!
