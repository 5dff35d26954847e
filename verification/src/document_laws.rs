//! What holds of the operations of a document.
use crate::document::{
    item_operations, method_and_operation, operations_of, path_operations, under, Listed,
    Operation, OperationRef, PathItem, ReferenceOr,
};
use vstd::prelude::*;

verus! {

/// One where there is an operation, and none where there is not.
pub open spec fn number_of(operation: Option<Operation>) -> int {
    if operation is Some {
        1
    } else {
        0
    }
}

/// The names of the methods differ.
proof fn lemma_methods_differ()
    ensures
        method_rank("get"@) == 0,
        method_rank("put"@) == 1,
        method_rank("post"@) == 2,
        method_rank("delete"@) == 3,
        method_rank("options"@) == 4,
        method_rank("head"@) == 5,
        method_rank("patch"@) == 6,
        method_rank("trace"@) == 7,
{
    reveal_strlit("get");
    reveal_strlit("put");
    reveal_strlit("post");
    reveal_strlit("delete");
    reveal_strlit("options");
    reveal_strlit("head");
    reveal_strlit("patch");
    reveal_strlit("trace");
    assert("get"@.len() == 3 && "put"@.len() == 3 && "post"@.len() == 4 && "head"@.len() == 4);
    assert("delete"@.len() == 6 && "options"@.len() == 7);
    assert("patch"@.len() == 5 && "trace"@.len() == 5);
    assert("get"@[0] != "put"@[0]);
    assert("post"@[0] != "head"@[0]);
    assert("patch"@[0] != "trace"@[0]);
}

/// Every operation of a path is listed under the name of its method, and nothing
/// else is. There are as many operations as methods that have one, whatever the
/// operations hold.
pub proof fn law_every_method_is_listed(item: PathItem)
    ensures
        forall|method: Seq<char>, operation: Operation| #[trigger]
            item_operations(item).contains((method, operation)) <==> {
                ||| method == "get"@ && item.get == Some(operation)
                ||| method == "put"@ && item.put == Some(operation)
                ||| method == "post"@ && item.post == Some(operation)
                ||| method == "delete"@ && item.delete == Some(operation)
                ||| method == "options"@ && item.options == Some(operation)
                ||| method == "head"@ && item.head == Some(operation)
                ||| method == "patch"@ && item.patch == Some(operation)
                ||| method == "trace"@ && item.trace == Some(operation)
            },
        item_operations(item).len() == number_of(item.get) + number_of(item.put) + number_of(
            item.post,
        ) + number_of(item.delete) + number_of(item.options) + number_of(item.head) + number_of(
            item.patch,
        ) + number_of(item.trace),
{
    let s0 = Seq::<(Seq<char>, Operation)>::empty();
    let s1 = under("get"@, item.get);
    let s2 = s1 + under("put"@, item.put);
    let s3 = s2 + under("post"@, item.post);
    let s4 = s3 + under("delete"@, item.delete);
    let s5 = s4 + under("options"@, item.options);
    let s6 = s5 + under("head"@, item.head);
    let s7 = s6 + under("patch"@, item.patch);
    assert(s0 + s1 =~= s1);
    lemma_one_more_method(s0, "get"@, item.get);
    lemma_one_more_method(s1, "put"@, item.put);
    lemma_one_more_method(s2, "post"@, item.post);
    lemma_one_more_method(s3, "delete"@, item.delete);
    lemma_one_more_method(s4, "options"@, item.options);
    lemma_one_more_method(s5, "head"@, item.head);
    lemma_one_more_method(s6, "patch"@, item.patch);
    lemma_one_more_method(s7, "trace"@, item.trace);
}

/// What one more method adds to a list of operations.
proof fn lemma_one_more_method(
    list: Seq<(Seq<char>, Operation)>,
    method: Seq<char>,
    operation: Option<Operation>,
)
    ensures
        (list + under(method, operation)).len() == list.len() + number_of(operation),
        forall|entry: (Seq<char>, Operation)| #[trigger]
            (list + under(method, operation)).contains(entry) <==> list.contains(entry) || (entry.0
                == method && operation == Some(entry.1)),
{
    let longer = list + under(method, operation);
    assert forall|entry: (Seq<char>, Operation)| #[trigger] longer.contains(entry) <==> list.contains(
        entry,
    ) || (entry.0 == method && operation == Some(entry.1)) by {
        if list.contains(entry) {
            let i = choose|i: int| 0 <= i < list.len() && list[i] == entry;
            assert(longer[i] == entry);
        }
        if entry.0 == method && operation == Some(entry.1) {
            assert(longer[list.len() as int] == entry);
        }
        if longer.contains(entry) {
            let i = choose|i: int| 0 <= i < longer.len() && longer[i] == entry;
            if i < list.len() {
                assert(list[i] == entry);
            }
        }
    }
}

/// The place of a method among the methods of a path.
pub open spec fn method_rank(method: Seq<char>) -> int {
    if method == "get"@ {
        0
    } else if method == "put"@ {
        1
    } else if method == "post"@ {
        2
    } else if method == "delete"@ {
        3
    } else if method == "options"@ {
        4
    } else if method == "head"@ {
        5
    } else if method == "patch"@ {
        6
    } else {
        7
    }
}

/// The operations of a path come in the order of their methods, and no method has
/// two of them.
pub proof fn law_methods_in_order(item: PathItem)
    ensures
        forall|i: int, j: int|
            0 <= i < j < item_operations(item).len() ==> method_rank(
                (#[trigger] item_operations(item)[i]).0,
            ) < method_rank((#[trigger] item_operations(item)[j]).0),
{
    lemma_methods_differ();
    let s1 = under("get"@, item.get);
    let s2 = s1 + under("put"@, item.put);
    let s3 = s2 + under("post"@, item.post);
    let s4 = s3 + under("delete"@, item.delete);
    let s5 = s4 + under("options"@, item.options);
    let s6 = s5 + under("head"@, item.head);
    let s7 = s6 + under("patch"@, item.patch);
    lemma_ranks_ascend(s1, "put"@, item.put);
    lemma_ranks_ascend(s2, "post"@, item.post);
    lemma_ranks_ascend(s3, "delete"@, item.delete);
    lemma_ranks_ascend(s4, "options"@, item.options);
    lemma_ranks_ascend(s5, "head"@, item.head);
    lemma_ranks_ascend(s6, "patch"@, item.patch);
    lemma_ranks_ascend(s7, "trace"@, item.trace);
}

/// The methods of a list come in their order, all of them before a given place.
spec fn ranks_ascend(list: Seq<(Seq<char>, Operation)>, end: int) -> bool {
    &&& forall|i: int, j: int|
        0 <= i < j < list.len() ==> method_rank((#[trigger] list[i]).0) < method_rank(
            (#[trigger] list[j]).0,
        )
    &&& forall|i: int| 0 <= i < list.len() ==> method_rank((#[trigger] list[i]).0) < end
}

/// A list stays in order where a later method is added.
proof fn lemma_ranks_ascend(
    list: Seq<(Seq<char>, Operation)>,
    method: Seq<char>,
    operation: Option<Operation>,
)
    requires
        ranks_ascend(list, method_rank(method)),
    ensures
        ranks_ascend(list + under(method, operation), method_rank(method) + 1),
{
    let longer = list + under(method, operation);
    assert forall|i: int, j: int| 0 <= i < j < longer.len() implies method_rank(
        (#[trigger] longer[i]).0,
    ) < method_rank((#[trigger] longer[j]).0) by {
        assert(longer[i] == list[i]);
        if j < list.len() {
            assert(longer[j] == list[j]);
        }
    }
    assert forall|i: int| 0 <= i < longer.len() implies method_rank((#[trigger] longer[i]).0)
        < method_rank(method) + 1 by {
        if i < list.len() {
            assert(longer[i] == list[i]);
        }
    }
}

/// The operations of a document are those of its paths, path after path. Each is
/// listed with its path and its method; a path that is given by a reference has
/// none.
pub proof fn law_every_path_is_listed(paths: Seq<(String, ReferenceOr<PathItem>)>)
    ensures
        operations_of(paths) == paths.flat_map(
            |path: (String, ReferenceOr<PathItem>)|
                match path.1 {
                    ReferenceOr::Item(item) => item_operations(item).map_values(
                        |entry: (Seq<char>, Operation)|
                            Listed { path: path.0@, method: entry.0, operation: entry.1 },
                    ),
                    ReferenceOr::Reference { reference } => Seq::empty(),
                },
        ),
    decreases paths.len(),
{
    let f = |path: (String, ReferenceOr<PathItem>)|
        match path.1 {
            ReferenceOr::Item(item) => item_operations(item).map_values(
                |entry: (Seq<char>, Operation)|
                    Listed { path: path.0@, method: entry.0, operation: entry.1 },
            ),
            ReferenceOr::Reference { reference } => Seq::empty(),
        };
    if paths.len() == 0 {
        assert(paths.map_values(f) =~= Seq::empty());
    } else {
        let shorter = paths.drop_last();
        law_every_path_is_listed(shorter);
        assert(paths.map_values(f) =~= shorter.map_values(f).push(f(paths.last())));
        shorter.map_values(f).lemma_flatten_push(f(paths.last()));
        assert(path_operations(paths.last()) =~= f(paths.last()));
    }
}

/// An operation that is listed is spoken of by its own path and method, and is the
/// operation that stands there.
pub proof fn law_operations_as_they_are(one: OperationRef<'_>, entry: (&'static str, &Operation))
    ensures
        one@.path == one.path@,
        one@.method == one.method@,
        one@.operation == *one.operation,
        method_and_operation(entry).0 == entry.0@,
        method_and_operation(entry).1 == *entry.1,
{
}

} // verus!
