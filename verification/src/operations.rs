//! The operations of a document, made into code one after the other.
//!
//! How one operation is read and written is up to functions that the caller
//! gives. Here they are called, each once for every operation and in the order of
//! the document, until one of them fails. [`Work`] is handed from call to call.
use crate::client::{
    builder_merged_code, builder_merged_tokens, builder_separate_code, builder_separate_tokens,
    join_streams, joined_tokens, positional_code, positional_tokens,
};
use crate::document::{operations_of, OpenAPI, Tag};
use crate::error::Error;
use crate::generator::Generator;
use crate::settings::{InterfaceStyle, TagStyle};
use crate::tokens::{tokens, Token};
use proc_macro2::TokenStream;
use typify::TypeSpace;
use vstd::prelude::*;

verus! {

/// What is handed from call to call while operations are made into code.
pub struct Work<S> {
    /// What the caller keeps.
    pub state: S,
    /// The types of the client.
    pub type_space: TypeSpace,
    /// Whether the code needs futures.
    pub uses_futures: bool,
    /// Whether the code needs websockets.
    pub uses_websockets: bool,
}

/// Calls that follow each other.
pub struct Calls<S, R> {
    /// The work before the first call, and after each.
    pub works: Seq<Work<S>>,
    /// What each call returned.
    pub results: Seq<R>,
}

/// Calls begin with some work, and end with some.
pub open spec fn leads<S, R>(calls: Calls<S, R>, start: Work<S>, end: Work<S>) -> bool {
    &&& calls.works.len() == calls.results.len() + 1
    &&& calls.works[0] == start
    &&& calls.works.last() == end
}

/// There is one result for each of `n` things, or the last result is the first
/// failure.
pub open spec fn until_failure<A>(results: Seq<Result<A, Error>>, n: nat) -> bool {
    &&& results.len() <= n
    &&& forall|i: int| 0 <= i < results.len() - 1 ==> (#[trigger] results[i]) is Ok
    &&& results.len() < n ==> results.len() > 0 && results.last() is Err
}

/// All that came, or the failure that came last.
pub open spec fn gathered<A>(results: Seq<Result<A, Error>>, outcome: Result<Vec<A>, Error>) -> bool {
    match outcome {
        Ok(all) => {
            &&& all@.len() == results.len()
            &&& forall|i: int|
                0 <= i < results.len() ==> #[trigger] results[i] == Ok::<A, Error>(all@[i])
        },
        Err(error) => results.len() > 0 && results.last() == Err::<A, Error>(error),
    }
}

/// Each of some calls is one of `process`, for one operation after the other.
pub open spec fn calls_process<S, M, P>(process: P, calls: Calls<S, Result<M, Error>>) -> bool where
    P: Fn(Work<S>, usize) -> (Work<S>, Result<M, Error>),
 {
    forall|i: int|
        0 <= i < calls.results.len() ==> process.ensures(
            (calls.works[i], i as usize),
            (calls.works[i + 1], #[trigger] calls.results[i]),
        )
}

/// What may come of reading `n` operations, one after the other, up to the first
/// that fails.
pub open spec fn processed<S, M, P>(
    process: P,
    n: nat,
    start: Work<S>,
    done: (Work<S>, Result<Vec<M>, Error>),
) -> bool where P: Fn(Work<S>, usize) -> (Work<S>, Result<M, Error>) {
    exists|calls: Calls<S, Result<M, Error>>|
        {
            &&& #[trigger] calls_process(process, calls)
            &&& leads(calls, start, done.0)
            &&& until_failure(calls.results, n)
            &&& gathered(calls.results, done.1)
        }
}

/// Reads the operations of a document, one after the other, up to the first that
/// fails. `process` is given the place of the operation among those of the
/// document.
pub fn process_operations<S, M, P>(spec: &OpenAPI, start: Work<S>, process: P) -> (done: (
    Work<S>,
    Result<Vec<M>, Error>,
)) where P: Fn(Work<S>, usize) -> (Work<S>, Result<M, Error>)
    requires
        forall|work: Work<S>, i: usize|
            i < operations_of(spec.paths@).len() ==> #[trigger] process.requires((work, i)),
    ensures
        processed(process, operations_of(spec.paths@).len(), start, done),
{
    let operations = spec.operations();
    let n: usize = operations.len();
    assert(n == operations_of(spec.paths@).len());
    let ghost mut calls: Calls<S, Result<M, Error>> = Calls {
        works: seq![start],
        results: Seq::empty(),
    };
    let mut work = start;
    let mut methods: Vec<M> = Vec::new();
    let mut i: usize = 0;
    while i < n
        invariant
            0 <= i <= n,
            n == operations_of(spec.paths@).len(),
            forall|work: Work<S>, i: usize|
                i < operations_of(spec.paths@).len() ==> #[trigger] process.requires((work, i)),
            calls_process(process, calls),
            leads(calls, start, work),
            calls.results.len() == i,
            gathered(calls.results, Ok(methods)),
        decreases n - i,
    {
        let ghost before = calls;
        let (next, result) = process(work, i);
        proof {
            calls =
            Calls { works: before.works.push(next), results: before.results.push(result) };
            assert forall|k: int| 0 <= k < calls.results.len() implies process.ensures(
                (calls.works[k], k as usize),
                (calls.works[k + 1], #[trigger] calls.results[k]),
            ) by {
                if k < i {
                    assert(before.results[k] == calls.results[k]);
                }
            }
            assert forall|k: int| 0 <= k < i implies (#[trigger] calls.results[k]) is Ok by {
                assert(before.results[k] == calls.results[k]);
            }
        }
        work = next;
        match result {
            Ok(method) => {
                methods.push(method);
                assert forall|k: int| 0 <= k < calls.results.len() implies #[trigger] calls.results[k]
                    == Ok::<M, Error>(methods@[k]) by {
                    if k < i {
                        assert(before.results[k] == calls.results[k]);
                    }
                }
            },
            Err(error) => {
                assert(calls_process(process, calls));
                return (work, Err(error));
            },
        }
        i = i + 1;
    }
    assert(calls_process(process, calls));
    (work, Ok(methods))
}

/// Each of some calls is one of `item`, for one operation after the other.
pub open spec fn calls_item<S, M, I>(
    item: I,
    interface: InterfaceStyle,
    tag: TagStyle,
    methods: Seq<M>,
    calls: Calls<S, Result<TokenStream, Error>>,
) -> bool where
    I: Fn(Work<S>, &M, InterfaceStyle, TagStyle) -> (Work<S>, Result<TokenStream, Error>),
 {
    forall|i: int|
        0 <= i < calls.results.len() ==> item.ensures(
            (calls.works[i], &methods[i], interface, tag),
            (calls.works[i + 1], #[trigger] calls.results[i]),
        )
}

/// What may come of writing the items of some operations, one after the other, up
/// to the first that fails.
pub open spec fn itemized<S, M, I>(
    item: I,
    interface: InterfaceStyle,
    tag: TagStyle,
    methods: Seq<M>,
    start: Work<S>,
    done: (Work<S>, Result<Vec<TokenStream>, Error>),
) -> bool where
    I: Fn(Work<S>, &M, InterfaceStyle, TagStyle) -> (Work<S>, Result<TokenStream, Error>),
 {
    exists|calls: Calls<S, Result<TokenStream, Error>>|
        {
            &&& #[trigger] calls_item(item, interface, tag, methods, calls)
            &&& leads(calls, start, done.0)
            &&& until_failure(calls.results, methods.len())
            &&& gathered(calls.results, done.1)
        }
}

/// Writes the items of some operations, one after the other, up to the first that
/// fails.
fn write_items<S, M, I>(
    start: Work<S>,
    methods: &Vec<M>,
    interface: InterfaceStyle,
    tag: TagStyle,
    item: I,
) -> (done: (Work<S>, Result<Vec<TokenStream>, Error>)) where
    I: Fn(Work<S>, &M, InterfaceStyle, TagStyle) -> (Work<S>, Result<TokenStream, Error>),

    requires
        forall|work: Work<S>, method: &M| #[trigger]
            item.requires((work, method, interface, tag)),
    ensures
        itemized(item, interface, tag, methods@, start, done),
{
    let ghost mut calls: Calls<S, Result<TokenStream, Error>> = Calls {
        works: seq![start],
        results: Seq::empty(),
    };
    let mut work = start;
    let mut items: Vec<TokenStream> = Vec::new();
    let mut i: usize = 0;
    while i < methods.len()
        invariant
            0 <= i <= methods@.len(),
            forall|work: Work<S>, method: &M| #[trigger]
                item.requires((work, method, interface, tag)),
            calls_item(item, interface, tag, methods@, calls),
            leads(calls, start, work),
            calls.results.len() == i,
            gathered(calls.results, Ok(items)),
        decreases methods@.len() - i,
    {
        let ghost before = calls;
        let (next, result) = item(work, &methods[i], interface, tag);
        proof {
            calls =
            Calls { works: before.works.push(next), results: before.results.push(result) };
            assert forall|k: int| 0 <= k < calls.results.len() implies item.ensures(
                (calls.works[k], &methods@[k], interface, tag),
                (calls.works[k + 1], #[trigger] calls.results[k]),
            ) by {
                if k < i {
                    assert(before.results[k] == calls.results[k]);
                }
            }
            assert forall|k: int| 0 <= k < i implies (#[trigger] calls.results[k]) is Ok by {
                assert(before.results[k] == calls.results[k]);
            }
        }
        work = next;
        match result {
            Ok(stream) => {
                items.push(stream);
                assert forall|k: int| 0 <= k < calls.results.len() implies #[trigger] calls.results[k]
                    == Ok::<TokenStream, Error>(items@[k]) by {
                    if k < i {
                        assert(before.results[k] == calls.results[k]);
                    }
                }
            },
            Err(error) => {
                assert(calls_item(item, interface, tag, methods@, calls));
                return (work, Err(error));
            },
        }
        i = i + 1;
    }
    assert(calls_item(item, interface, tag, methods@, calls));
    (work, Ok(items))
}

/// Each of some calls is one of `method`, for one operation after the other.
pub open spec fn calls_method<S, M, B>(
    method: B,
    methods: Seq<M>,
    calls: Calls<S, TokenStream>,
) -> bool where B: Fn(Work<S>, &M) -> (Work<S>, TokenStream) {
    forall|i: int|
        0 <= i < calls.results.len() ==> method.ensures(
            (calls.works[i], &methods[i]),
            (calls.works[i + 1], #[trigger] calls.results[i]),
        )
}

/// What may come of writing the methods that return the builders of some
/// operations, one after the other.
pub open spec fn with_methods<S, M, B>(
    method: B,
    methods: Seq<M>,
    start: Work<S>,
    done: (Work<S>, Vec<TokenStream>),
) -> bool where B: Fn(Work<S>, &M) -> (Work<S>, TokenStream) {
    exists|calls: Calls<S, TokenStream>|
        {
            &&& #[trigger] calls_method(method, methods, calls)
            &&& leads(calls, start, done.0)
            &&& calls.results.len() == methods.len()
            &&& calls.results == done.1@
        }
}

/// Writes the methods that return the builders of some operations, one after the
/// other.
fn write_methods<S, M, B>(start: Work<S>, methods: &Vec<M>, method: B) -> (done: (
    Work<S>,
    Vec<TokenStream>,
)) where B: Fn(Work<S>, &M) -> (Work<S>, TokenStream)
    requires
        forall|work: Work<S>, one: &M| #[trigger] method.requires((work, one)),
    ensures
        with_methods(method, methods@, start, done),
{
    let ghost mut calls: Calls<S, TokenStream> = Calls {
        works: seq![start],
        results: Seq::empty(),
    };
    let mut work = start;
    let mut written: Vec<TokenStream> = Vec::new();
    let mut i: usize = 0;
    assert(calls.results =~= written@);
    while i < methods.len()
        invariant
            0 <= i <= methods@.len(),
            forall|work: Work<S>, one: &M| #[trigger] method.requires((work, one)),
            calls_method(method, methods@, calls),
            leads(calls, start, work),
            calls.results.len() == i,
            calls.results == written@,
        decreases methods@.len() - i,
    {
        let ghost before = calls;
        let (next, stream) = method(work, &methods[i]);
        proof {
            calls =
            Calls { works: before.works.push(next), results: before.results.push(stream) };
            assert forall|k: int| 0 <= k < calls.results.len() implies method.ensures(
                (calls.works[k], &methods@[k]),
                (calls.works[k + 1], #[trigger] calls.results[k]),
            ) by {
                if k < i {
                    assert(before.results[k] == calls.results[k]);
                }
            }
        }
        work = next;
        written.push(stream);
        i = i + 1;
    }
    assert(calls_method(method, methods@, calls));
    (work, written)
}

/// The tokens of what came, or why nothing came.
pub open spec fn token_outcome(result: Result<TokenStream, Error>) -> Result<Seq<Token>, Error> {
    match result {
        Ok(stream) => Ok(tokens(stream)),
        Err(error) => Err(error),
    }
}

/// What may come of writing operations as methods with positional arguments.
pub open spec fn positional<S, M, I>(
    item: I,
    methods: Seq<M>,
    start: Work<S>,
    done: (Work<S>, Result<Seq<Token>, Error>),
) -> bool where
    I: Fn(Work<S>, &M, InterfaceStyle, TagStyle) -> (Work<S>, Result<TokenStream, Error>),
 {
    exists|items: (Work<S>, Result<Vec<TokenStream>, Error>)|
        {
            &&& #[trigger] itemized(
                item,
                InterfaceStyle::Positional,
                TagStyle::Merged,
                methods,
                start,
                items,
            )
            &&& done.0 == items.0
            &&& done.1 == (match items.1 {
                Ok(streams) => Ok(positional_tokens(joined_tokens(streams@))),
                Err(error) => Err(error),
            })
        }
}

/// What may come of writing operations as methods that return builders.
pub open spec fn builder_merged<S, M, I, B>(
    item: I,
    method: B,
    methods: Seq<M>,
    start: Work<S>,
    done: (Work<S>, Result<Seq<Token>, Error>),
) -> bool where
    I: Fn(Work<S>, &M, InterfaceStyle, TagStyle) -> (Work<S>, Result<TokenStream, Error>),
    B: Fn(Work<S>, &M) -> (Work<S>, TokenStream),
 {
    exists|items: (Work<S>, Result<Vec<TokenStream>, Error>)|
        {
            &&& #[trigger] itemized(
                item,
                InterfaceStyle::Builder,
                TagStyle::Merged,
                methods,
                start,
                items,
            )
            &&& match items.1 {
                Err(error) => done == (items.0, Err::<Seq<Token>, Error>(error)),
                Ok(structs) => exists|written: (Work<S>, Vec<TokenStream>)|
                    {
                        &&& #[trigger] with_methods(method, methods, items.0, written)
                        &&& done.0 == written.0
                        &&& done.1 == Ok::<Seq<Token>, Error>(
                            builder_merged_tokens(
                                joined_tokens(written.1@),
                                joined_tokens(structs@),
                            ),
                        )
                    },
            }
        }
}

/// What may come of writing operations as methods of one trait for each tag.
/// `table` holds the tags.
pub open spec fn builder_separate<S, M, I, T>(
    item: I,
    tags: T,
    methods: Vec<M>,
    table: Vec<&Tag>,
    start: Work<S>,
    done: (Work<S>, Result<Seq<Token>, Error>),
) -> bool where
    I: Fn(Work<S>, &M, InterfaceStyle, TagStyle) -> (Work<S>, Result<TokenStream, Error>),
    T: Fn(Work<S>, &Vec<M>, &Vec<&Tag>) -> (Work<S>, (TokenStream, TokenStream)),
 {
    exists|items: (Work<S>, Result<Vec<TokenStream>, Error>)|
        {
            &&& #[trigger] itemized(
                item,
                InterfaceStyle::Builder,
                TagStyle::Separate,
                methods@,
                start,
                items,
            )
            &&& match items.1 {
                Err(error) => done == (items.0, Err::<Seq<Token>, Error>(error)),
                Ok(structs) => exists|made: (Work<S>, (TokenStream, TokenStream))|
                    {
                        &&& #[trigger] tags.ensures((items.0, &methods, &table), made)
                        &&& done.0 == made.0
                        &&& done.1 == Ok::<Seq<Token>, Error>(
                            builder_separate_tokens(
                                tokens(made.1.0),
                                tokens(made.1.1),
                                joined_tokens(structs@),
                            ),
                        )
                    },
            }
        }
}

impl Generator {
    /// The operations of a client as methods with positional arguments, unless one
    /// of the methods cannot be written.
    pub fn generate_tokens_positional_merged<S, M, I>(
        start: Work<S>,
        methods: &Vec<M>,
        item: I,
    ) -> (done: (Work<S>, Result<TokenStream, Error>)) where
        I: Fn(Work<S>, &M, InterfaceStyle, TagStyle) -> (Work<S>, Result<TokenStream, Error>),

        requires
            forall|work: Work<S>, method: &M| #[trigger]
                item.requires((work, method, InterfaceStyle::Positional, TagStyle::Merged)),
        ensures
            positional(item, methods@, start, (done.0, token_outcome(done.1))),
    {
        let items = write_items(
            start,
            methods,
            InterfaceStyle::Positional,
            TagStyle::Merged,
            item,
        );
        assert(itemized(
            item,
            InterfaceStyle::Positional,
            TagStyle::Merged,
            methods@,
            start,
            items,
        ));
        let (work, written) = items;
        match written {
            Ok(streams) => (work, Ok(positional_code(join_streams(streams)))),
            Err(error) => (work, Err(error)),
        }
    }

    /// The operations of a client as methods that return builders, unless one of
    /// the builders cannot be written.
    pub fn generate_tokens_builder_merged<S, M, I, B>(
        start: Work<S>,
        methods: &Vec<M>,
        item: I,
        method: B,
    ) -> (done: (Work<S>, Result<TokenStream, Error>)) where
        I: Fn(Work<S>, &M, InterfaceStyle, TagStyle) -> (Work<S>, Result<TokenStream, Error>),
        B: Fn(Work<S>, &M) -> (Work<S>, TokenStream),

        requires
            forall|work: Work<S>, method: &M| #[trigger]
                item.requires((work, method, InterfaceStyle::Builder, TagStyle::Merged)),
            forall|work: Work<S>, one: &M| #[trigger] method.requires((work, one)),
        ensures
            builder_merged(item, method, methods@, start, (done.0, token_outcome(done.1))),
    {
        let items = write_items(start, methods, InterfaceStyle::Builder, TagStyle::Merged, item);
        assert(itemized(
            item,
            InterfaceStyle::Builder,
            TagStyle::Merged,
            methods@,
            start,
            items,
        ));
        let (work, written) = items;
        match written {
            Ok(structs) => {
                let made = write_methods(work, methods, method);
                assert(with_methods(method, methods@, items.0, made));
                let (work, streams) = made;
                (work, Ok(builder_merged_code(join_streams(streams), join_streams(structs))))
            },
            Err(error) => (work, Err(error)),
        }
    }

    /// The operations of a client as methods of one trait for each tag, unless one
    /// of the builders cannot be written.
    pub fn generate_tokens_builder_separate<S, M, I, T>(
        start: Work<S>,
        methods: &Vec<M>,
        table: &Vec<&Tag>,
        item: I,
        tags: T,
    ) -> (done: (Work<S>, Result<TokenStream, Error>)) where
        I: Fn(Work<S>, &M, InterfaceStyle, TagStyle) -> (Work<S>, Result<TokenStream, Error>),
        T: Fn(Work<S>, &Vec<M>, &Vec<&Tag>) -> (Work<S>, (TokenStream, TokenStream)),

        requires
            forall|work: Work<S>, method: &M| #[trigger]
                item.requires((work, method, InterfaceStyle::Builder, TagStyle::Separate)),
            forall|work: Work<S>| #[trigger] tags.requires((work, methods, table)),
        ensures
            builder_separate(item, tags, *methods, *table, start, (done.0, token_outcome(done.1))),
    {
        let items = write_items(
            start,
            methods,
            InterfaceStyle::Builder,
            TagStyle::Separate,
            item,
        );
        assert(itemized(
            item,
            InterfaceStyle::Builder,
            TagStyle::Separate,
            methods@,
            start,
            items,
        ));
        let (work, written) = items;
        match written {
            Ok(structs) => {
                let made = tags(work, methods, table);
                assert(tags.ensures((items.0, methods, table), made));
                let (work, (traits, preludes)) = made;
                (work, Ok(builder_separate_code(traits, preludes, join_streams(structs))))
            },
            Err(error) => (work, Err(error)),
        }
    }
}

/// What came is spoken of by its tokens, and a failure by itself.
pub proof fn law_outcomes_as_they_are(result: Result<TokenStream, Error>)
    ensures
        result is Ok ==> token_outcome(result) == Ok::<Seq<Token>, Error>(
            tokens(result->Ok_0),
        ),
        result is Err ==> token_outcome(result) == Err::<Seq<Token>, Error>(result->Err_0),
{
}

} // verus!
