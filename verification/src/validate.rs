//! Basic checks of an OpenAPI document.
use crate::document::{
    item_operations, method_and_operation, operations_of, path_operations, Listed, OpenAPI,
    Operation, PathItem, ReferenceOr,
};
use crate::error::Error;
use crate::text::same_text;
use vstd::hash_set::StringHashSet;
use vstd::prelude::*;
use vstd::string::*;

verus! {

/// A version of OpenAPI that is supported.
pub open spec fn supported_version(version: Seq<char>) -> bool {
    version == "3.0.0"@ || version == "3.0.1"@ || version == "3.0.2"@ || version == "3.0.3"@
}

/// A place of the document that is checked.
pub enum Place {
    /// A path that is given by a reference.
    Reference {
        /// The path.
        path: Seq<char>,
    },
    /// An operation.
    Operation {
        /// The path under which it stands.
        path: Seq<char>,
        /// Its identifier.
        id: Option<Seq<char>>,
    },
}

/// The identifier of an operation.
pub open spec fn operation_id(operation: Operation) -> Option<Seq<char>> {
    match operation.operation_id {
        Some(id) => Some(id@),
        None => None,
    }
}

/// An operation as a place that is checked.
pub open spec fn operation_place(listed: Listed) -> Place {
    Place::Operation { path: listed.path, id: operation_id(listed.operation) }
}

/// The places of one entry of the paths.
pub open spec fn path_places(path: (String, ReferenceOr<PathItem>)) -> Seq<Place> {
    match path.1 {
        ReferenceOr::Reference { .. } => seq![Place::Reference { path: path.0@ }],
        ReferenceOr::Item(_) => path_operations(path).map_values(|l: Listed| operation_place(l)),
    }
}

/// The places of a document, in its order.
pub open spec fn places(paths: Seq<(String, ReferenceOr<PathItem>)>) -> Seq<Place>
    decreases paths.len(),
{
    if paths.len() == 0 {
        Seq::empty()
    } else {
        places(paths.drop_last()) + path_places(paths.last())
    }
}

/// A place has the given operation identifier.
pub open spec fn has_id(place: Place, id: Seq<char>) -> bool {
    place matches Place::Operation { id: Some(own), .. } && own == id
}

/// What is wrong with the place at `i`, given those before it.
pub open spec fn fault(places: Seq<Place>, i: int) -> Option<Seq<char>> {
    match places[i] {
        Place::Reference { path } => Some("path "@ + path + " uses reference, unsupported"@),
        Place::Operation { path, id: None } => Some("path "@ + path + " is missing operation ID"@),
        Place::Operation { id: Some(id), .. } => if exists|j: int|
            0 <= j < i && has_id(#[trigger] places[j], id) {
            Some("duplicate operation ID: "@ + id)
        } else {
            None
        },
    }
}

/// What is wrong with the first place with which something is wrong.
pub open spec fn first_fault(places: Seq<Place>) -> Option<Seq<char>>
    decreases places.len(),
{
    if places.len() == 0 {
        None
    } else {
        match first_fault(places.drop_last()) {
            Some(what) => Some(what),
            None => fault(places, places.len() - 1),
        }
    }
}

/// What is wrong with a document, or `None` where it can be used.
pub open spec fn objection(spec: OpenAPI) -> Option<Seq<char>> {
    if !supported_version(spec.openapi@) {
        Some("invalid version: "@ + spec.openapi@)
    } else {
        first_fault(places(spec.paths@))
    }
}

/// A fault in a prefix is the first fault of the whole.
proof fn lemma_first_fault_of_prefix(all: Seq<Place>, n: int)
    requires
        0 <= n <= all.len(),
        first_fault(all.take(n)) is Some,
    ensures
        first_fault(all) == first_fault(all.take(n)),
    decreases all.len() - n,
{
    if n == all.len() {
        assert(all.take(n) =~= all);
    } else {
        assert(all.take(n + 1).drop_last() =~= all.take(n));
        lemma_first_fault_of_prefix(all, n + 1);
    }
}

/// What is wrong with a place does not depend on what comes after it.
proof fn lemma_fault_of_prefix(all: Seq<Place>)
    requires
        all.len() > 0,
    ensures
        forall|i: int|
            0 <= i < all.len() - 1 ==> #[trigger] fault(all.drop_last(), i) == fault(all, i),
{
    let shorter = all.drop_last();
    assert forall|i: int| 0 <= i < shorter.len() implies #[trigger] fault(shorter, i) == fault(
        all,
        i,
    ) by {
        if let Place::Operation { id: Some(id), .. } = all[i] {
            if exists|j: int| 0 <= j < i && has_id(#[trigger] all[j], id) {
                let j = choose|j: int| 0 <= j < i && has_id(#[trigger] all[j], id);
                assert(has_id(shorter[j], id));
            }
            if exists|j: int| 0 <= j < i && has_id(#[trigger] shorter[j], id) {
                let j = choose|j: int| 0 <= j < i && has_id(#[trigger] shorter[j], id);
                assert(has_id(all[j], id));
            }
        }
    }
}

/// What is wrong with places is what is wrong with one of them, and nothing is
/// wrong with any before it.
pub proof fn law_first_fault_is_reported(all: Seq<Place>)
    requires
        first_fault(all) is Some,
    ensures
        exists|i: int|
            {
                &&& 0 <= i < all.len()
                &&& #[trigger] fault(all, i) == first_fault(all)
                &&& forall|j: int| 0 <= j < i ==> #[trigger] fault(all, j) is None
            },
    decreases all.len(),
{
    let shorter = all.drop_last();
    lemma_fault_of_prefix(all);
    if first_fault(shorter) is Some {
        law_first_fault_is_reported(shorter);
        let i = choose|i: int|
            {
                &&& 0 <= i < shorter.len()
                &&& #[trigger] fault(shorter, i) == first_fault(shorter)
                &&& forall|j: int| 0 <= j < i ==> #[trigger] fault(shorter, j) is None
            };
        assert(fault(all, i) == first_fault(all));
        assert forall|j: int| 0 <= j < i implies #[trigger] fault(all, j) is None by {
            assert(fault(shorter, j) is None);
        }
    } else {
        lemma_no_fault(shorter);
        assert(fault(all, all.len() - 1) == first_fault(all));
        assert forall|j: int| 0 <= j < all.len() - 1 implies #[trigger] fault(all, j) is None by {
            assert(fault(shorter, j) is None);
        }
    }
}

/// Nothing is wrong with a sequence of places where nothing is wrong with any.
proof fn lemma_no_fault(all: Seq<Place>)
    ensures
        first_fault(all) is None <==> forall|i: int| 0 <= i < all.len() ==> fault(all, i) is None,
    decreases all.len(),
{
    if all.len() > 0 {
        let shorter = all.drop_last();
        lemma_no_fault(shorter);
        lemma_fault_of_prefix(all);
        assert(fault(all, all.len() - 1) is None ==> (first_fault(all) is None <==> first_fault(
            shorter,
        ) is None));
        if first_fault(all) is None {
            assert forall|i: int| 0 <= i < all.len() implies fault(all, i) is None by {
                if i < shorter.len() {
                    assert(fault(shorter, i) is None);
                }
            }
        }
        if forall|i: int| 0 <= i < all.len() ==> fault(all, i) is None {
            assert forall|i: int| 0 <= i < shorter.len() implies fault(shorter, i) is None by {
                assert(fault(all, i) is None);
            }
        }
    }
}

/// The places of a prefix of the paths are a prefix of the places.
proof fn lemma_places_of_prefix(paths: Seq<(String, ReferenceOr<PathItem>)>, n: int)
    requires
        0 <= n <= paths.len(),
    ensures
        places(paths.take(n)).len() <= places(paths).len(),
        places(paths).take(places(paths.take(n)).len() as int) == places(paths.take(n)),
    decreases paths.len() - n,
{
    if n == paths.len() {
        assert(paths.take(n) =~= paths);
        assert(places(paths).take(places(paths).len() as int) =~= places(paths));
    } else {
        lemma_places_of_prefix(paths, n + 1);
        assert(paths.take(n + 1).drop_last() =~= paths.take(n));
        let short = places(paths.take(n));
        let long = places(paths.take(n + 1));
        assert(long == short + path_places(paths[n]));
        assert(long.take(short.len() as int) =~= short);
        assert(places(paths).take(short.len() as int) =~= places(paths).take(
            long.len() as int,
        ).take(short.len() as int));
    }
}

/// Every path of a document is given in place.
pub open spec fn paths_in_place(paths: Seq<(String, ReferenceOr<PathItem>)>) -> bool {
    forall|i: int| 0 <= i < paths.len() ==> (#[trigger] paths[i]).1 is Item
}

/// Every operation of a list has an identifier.
pub open spec fn all_identified(operations: Seq<Listed>) -> bool {
    forall|i: int|
        0 <= i < operations.len() ==> operation_id((#[trigger] operations[i]).operation) is Some
}

/// No two operations of a list have the same identifier.
pub open spec fn ids_distinct(operations: Seq<Listed>) -> bool {
    forall|i: int, j: int|
        0 <= i < j < operations.len() && operation_id((#[trigger] operations[i]).operation) is Some
            ==> operation_id(operations[i].operation) != operation_id(
            (#[trigger] operations[j]).operation,
        )
}

/// Where every path is given in place, the places are the operations; elsewhere
/// one of them is a reference.
proof fn lemma_places(paths: Seq<(String, ReferenceOr<PathItem>)>)
    ensures
        paths_in_place(paths) ==> places(paths) == operations_of(paths).map_values(
            |l: Listed| operation_place(l),
        ),
        !paths_in_place(paths) ==> exists|i: int|
            0 <= i < places(paths).len() && (#[trigger] places(paths)[i]) is Reference,
    decreases paths.len(),
{
    if paths.len() == 0 {
        assert(operations_of(paths).map_values(|l: Listed| operation_place(l)) =~= Seq::empty());
    } else {
        let shorter = paths.drop_last();
        lemma_places(shorter);
        if paths_in_place(paths) {
            assert forall|i: int| 0 <= i < shorter.len() implies (#[trigger] shorter[i]).1 is Item by {
                assert(paths[i].1 is Item);
            }
            assert(paths.last().1 is Item);
            assert(operations_of(paths).map_values(|l: Listed| operation_place(l))
                =~= operations_of(shorter).map_values(|l: Listed| operation_place(l))
                + path_operations(paths.last()).map_values(|l: Listed| operation_place(l)));
        } else if !paths_in_place(shorter) {
            let i = choose|i: int|
                0 <= i < places(shorter).len() && (#[trigger] places(shorter)[i]) is Reference;
            assert(places(paths)[i] is Reference);
        } else {
            let k = choose|k: int| 0 <= k < paths.len() && !((#[trigger] paths[k]).1 is Item);
            if k < shorter.len() {
                assert(shorter[k].1 is Item);
            }
            assert(places(paths)[places(shorter).len() as int] is Reference);
        }
    }
}

/// Nothing is wrong with a document exactly where its version is supported,
/// every path is given in place, every operation has an identifier, and no two
/// operations have the same one.
pub proof fn law_valid_documents(spec: OpenAPI)
    ensures
        objection(spec) is None <==> {
            &&& supported_version(spec.openapi@)
            &&& paths_in_place(spec.paths@)
            &&& all_identified(operations_of(spec.paths@))
            &&& ids_distinct(operations_of(spec.paths@))
        },
{
    let all = places(spec.paths@);
    let operations = operations_of(spec.paths@);
    lemma_places(spec.paths@);
    lemma_no_fault(all);
    if paths_in_place(spec.paths@) {
        assert forall|i: int| 0 <= i < all.len() implies #[trigger] all[i] == operation_place(
            operations[i],
        ) by {}
        if first_fault(all) is None {
            assert forall|i: int| 0 <= i < operations.len() implies operation_id(
                (#[trigger] operations[i]).operation,
            ) is Some by {
                assert(fault(all, i) is None);
            }
            assert forall|i: int, j: int|
                0 <= i < j < operations.len() && operation_id(
                    (#[trigger] operations[i]).operation,
                ) is Some implies operation_id(operations[i].operation) != operation_id(
                (#[trigger] operations[j]).operation,
            ) by {
                assert(fault(all, j) is None);
                let id = operation_id(operations[i].operation).unwrap();
                if operation_id(operations[j].operation) == Some(id) {
                    assert(has_id(all[i], id));
                }
            }
        }
        if all_identified(operations) && ids_distinct(operations) {
            assert forall|i: int| 0 <= i < all.len() implies fault(all, i) is None by {
                let own = operation_id(operations[i].operation);
                assert(own is Some);
                if exists|j: int| 0 <= j < i && has_id(#[trigger] all[j], own.unwrap()) {
                    let j = choose|j: int| 0 <= j < i && has_id(#[trigger] all[j], own.unwrap());
                    assert(operation_id(operations[j].operation) == own);
                }
            }
        }
    } else {
        let i = choose|i: int| 0 <= i < all.len() && (#[trigger] all[i]) is Reference;
        assert(fault(all, i) is Some);
    }
}

/// One more place with which nothing is wrong.
proof fn lemma_one_more(done: Seq<Place>, next: Place)
    ensures
        first_fault(done) is None ==> first_fault(done.push(next)) == fault(
            done.push(next),
            done.len() as int,
        ),
{
    assert(done.push(next).drop_last() =~= done);
}

/// The identifiers that have been seen are those of the places.
spec fn seen_ids(seen: Set<Seq<char>>, places: Seq<Place>) -> bool {
    forall|id: Seq<char>| #[trigger]
        seen.contains(id) <==> exists|j: int|
            0 <= j < places.len() && has_id(#[trigger] places[j], id)
}

/// One more identifier has been seen.
proof fn lemma_seen_one_more(seen: Set<Seq<char>>, done: Seq<Place>, next: Place, id: Seq<char>)
    requires
        seen_ids(seen, done),
        has_id(next, id),
    ensures
        seen_ids(seen.insert(id), done.push(next)),
{
    let more = done.push(next);
    assert forall|other: Seq<char>| #[trigger] seen.insert(id).contains(other) <==> exists|j: int|
        0 <= j < more.len() && has_id(#[trigger] more[j], other) by {
        if seen.contains(other) {
            let j = choose|j: int| 0 <= j < done.len() && has_id(#[trigger] done[j], other);
            assert(has_id(more[j], other));
        }
        if other == id {
            assert(has_id(more[done.len() as int], other));
        }
        if exists|j: int| 0 <= j < more.len() && has_id(#[trigger] more[j], other) {
            let j = choose|j: int| 0 <= j < more.len() && has_id(#[trigger] more[j], other);
            if j < done.len() {
                assert(has_id(done[j], other));
            }
        }
    }
}

/// The message for a document that cannot be used.
fn complaint(before: &str, what: &str, after: &str) -> (error: Error)
    ensures
        error matches Error::UnexpectedFormat(text) && text@ == before@ + what@ + after@,
{
    Error::UnexpectedFormat(before.to_owned().concat(what).concat(after))
}

/// Does some very basic checks of an OpenAPI document: the version is one of
/// those supported, every path is given in place, every operation has an
/// identifier, and no two have the same.
pub fn validate_openapi(spec: &OpenAPI) -> (result: Result<(), Error>)
    ensures
        match result {
            Ok(()) => objection(*spec) is None,
            Err(error) => error matches Error::UnexpectedFormat(text) && objection(*spec) == Some(
                text@,
            ),
        },
{
    let version = spec.openapi.as_str();
    if !(same_text(version, "3.0.0") || same_text(version, "3.0.1") || same_text(version, "3.0.2")
        || same_text(version, "3.0.3")) {
        let error = complaint("invalid version: ", version, "");
        proof {
            reveal_strlit("");
            assert("invalid version: "@ + version@ + ""@ =~= "invalid version: "@ + version@);
        }
        return Err(error);
    }
    let mut opids = StringHashSet::new();
    let mut i: usize = 0;
    let ghost all = places(spec.paths@);
    assert(spec.paths@.take(0) =~= Seq::empty());
    while i < spec.paths.len()
        invariant
            supported_version(spec.openapi@),
            0 <= i <= spec.paths@.len(),
            all == places(spec.paths@),
            first_fault(places(spec.paths@.take(i as int))) is None,
            seen_ids(opids@, places(spec.paths@.take(i as int))),
        decreases spec.paths@.len() - i,
    {
        let path = &spec.paths[i];
        let ghost done = places(spec.paths@.take(i as int));
        proof {
            assert(spec.paths@.take(i + 1).drop_last() =~= spec.paths@.take(i as int));
            assert(places(spec.paths@.take(i + 1)) == done + path_places(*path));
            lemma_places_of_prefix(spec.paths@, i + 1);
        }
        match &path.1 {
            ReferenceOr::Reference { .. } => {
                proof {
                    lemma_one_more(done, Place::Reference { path: path.0@ });
                    assert(done + path_places(*path) =~= done.push(
                        Place::Reference { path: path.0@ },
                    ));
                    lemma_first_fault_of_prefix(all, done.len() + 1int);
                }
                return Err(complaint("path ", path.0.as_str(), " uses reference, unsupported"));
            },
            ReferenceOr::Item(item) => {
                let entries = item.iter();
                let ghost pairs = item_operations(*item);
                let ghost here = path_places(*path);
                let mut j: usize = 0;
                assert(done + here.take(0) =~= done);
                while j < entries.len()
                    invariant
                        supported_version(spec.openapi@),
                        0 <= j <= entries@.len(),
                        0 <= i < spec.paths@.len(),
                        all == places(spec.paths@),
                        path.1 == ReferenceOr::Item(*item),
                        pairs == item_operations(*item),
                        pairs == entries@.map_values(
                            |e: (&'static str, &Operation)| method_and_operation(e),
                        ),
                        here == path_places(*path),
                        here.len() == entries@.len(),
                        (done + here).len() <= all.len(),
                        all.take((done + here).len() as int) == done + here,
                        first_fault(done + here.take(j as int)) is None,
                        seen_ids(opids@, done + here.take(j as int)),
                    decreases entries@.len() - j,
                {
                    let operation = entries[j].1;
                    let ghost so_far = done + here.take(j as int);
                    let ghost next = here[j as int];
                    proof {
                        assert(pairs[j as int] == method_and_operation(entries@[j as int]));
                        assert(next == Place::Operation {
                            path: path.0@,
                            id: operation_id(*operation),
                        });
                        assert(done + here.take(j + 1) =~= so_far.push(next));
                        lemma_one_more(so_far, next);
                        assert(all.take(so_far.len() + 1int) =~= all.take(
                            (done + here).len() as int,
                        ).take(so_far.len() + 1int));
                        assert((done + here).take(so_far.len() + 1int) =~= so_far.push(next));
                        if fault(so_far.push(next), so_far.len() as int) is Some {
                            lemma_first_fault_of_prefix(all, so_far.len() + 1int);
                        }
                    }
                    match &operation.operation_id {
                        Some(oid) => {
                            let ghost seen = opids@;
                            proof {
                                assert(has_id(next, oid@));
                                lemma_seen_one_more(seen, so_far, next, oid@);
                                let more = so_far.push(next);
                                if seen.contains(oid@) {
                                    let k = choose|k: int|
                                        0 <= k < so_far.len() && has_id(
                                            #[trigger] so_far[k],
                                            oid@,
                                        );
                                    assert(has_id(more[k], oid@));
                                } else {
                                    assert forall|k: int| 0 <= k < so_far.len() implies !has_id(
                                        #[trigger] more[k],
                                        oid@,
                                    ) by {
                                        assert(more[k] == so_far[k]);
                                    }
                                }
                            }
                            if !opids.insert(oid.clone()) {
                                proof {
                                    reveal_strlit("");
                                    assert("duplicate operation ID: "@ + oid@ + ""@
                                        =~= "duplicate operation ID: "@ + oid@);
                                }
                                return Err(complaint("duplicate operation ID: ", oid.as_str(), ""));
                            }
                        },
                        None => {
                            return Err(
                                complaint("path ", path.0.as_str(), " is missing operation ID"),
                            );
                        },
                    }
                    j = j + 1;
                }
                assert(here.take(j as int) =~= here);
            },
        }
        i = i + 1;
    }
    assert(spec.paths@.take(i as int) =~= spec.paths@);
    Ok(())
}

/// The versions that are supported, by their characters: `3.0.` and a digit from
/// 0 to 3.
pub open spec fn is_three_zero(version: Seq<char>) -> bool {
    &&& version.len() == 5
    &&& version[0] == '3'
    &&& version[1] == '.'
    &&& version[2] == '0'
    &&& version[3] == '.'
    &&& '0' <= version[4] <= '3'
}

/// A version is supported exactly where it reads `3.0.` and then a digit from 0 to
/// 3, and nothing more.
pub proof fn law_supported_versions(version: Seq<char>)
    ensures
        supported_version(version) <==> is_three_zero(version),
{
    reveal_strlit("3.0.0");
    reveal_strlit("3.0.1");
    reveal_strlit("3.0.2");
    reveal_strlit("3.0.3");
    if is_three_zero(version) {
        let last = version[4];
        assert(last == '0' || last == '1' || last == '2' || last == '3');
        if last == '0' {
            assert(version =~= "3.0.0"@);
        } else if last == '1' {
            assert(version =~= "3.0.1"@);
        } else if last == '2' {
            assert(version =~= "3.0.2"@);
        } else {
            assert(version =~= "3.0.3"@);
        }
    }
}

/// Every operation has an identifier, and no two have the same.
pub open spec fn well_identified(operations: Seq<Listed>) -> bool {
    &&& forall|i: int|
        0 <= i < operations.len() ==> (#[trigger] operations[i]).operation.operation_id is Some
    &&& forall|i: int, j: int|
        0 <= i < j < operations.len() ==> (
        #[trigger] operations[i]).operation.operation_id.unwrap()@ != (
        #[trigger] operations[j]).operation.operation_id.unwrap()@
}

/// A document is accepted exactly where its version reads `3.0.` and a digit from
/// 0 to 3, no path is a reference, and the operations of all paths have
/// identifiers that differ.
pub proof fn law_accepted_documents(spec: OpenAPI)
    ensures
        objection(spec) is None <==> {
            &&& is_three_zero(spec.openapi@)
            &&& forall|i: int|
                0 <= i < spec.paths@.len() ==> !((#[trigger] spec.paths@[i]).1 is Reference)
            &&& well_identified(operations_of(spec.paths@))
        },
{
    law_valid_documents(spec);
    law_supported_versions(spec.openapi@);
    let operations = operations_of(spec.paths@);
    if objection(spec) is None {
        assert forall|i: int| 0 <= i < operations.len() implies (
        #[trigger] operations[i]).operation.operation_id is Some by {
            assert(operation_id(operations[i].operation) is Some);
        }
        assert forall|i: int, j: int| 0 <= i < j < operations.len() implies (
        #[trigger] operations[i]).operation.operation_id.unwrap()@ != (
        #[trigger] operations[j]).operation.operation_id.unwrap()@ by {
            assert(operation_id(operations[i].operation) is Some);
            assert(operation_id(operations[j].operation) is Some);
        }
        assert forall|i: int| 0 <= i < spec.paths@.len() implies !((
        #[trigger] spec.paths@[i]).1 is Reference) by {
            assert(spec.paths@[i].1 is Item);
        }
    }
    if well_identified(operations) {
        assert(all_identified(operations));
        assert forall|i: int, j: int|
            0 <= i < j < operations.len() && operation_id(
                (#[trigger] operations[i]).operation,
            ) is Some implies operation_id(operations[i].operation) != operation_id(
            (#[trigger] operations[j]).operation,
        ) by {
            assert(operations[i].operation.operation_id is Some);
            assert(operations[j].operation.operation_id is Some);
        }
    }
    if forall|i: int|
        0 <= i < spec.paths@.len() ==> !((#[trigger] spec.paths@[i]).1 is Reference) {
        assert forall|i: int| 0 <= i < spec.paths@.len() implies (
        #[trigger] spec.paths@[i]).1 is Item by {
            assert(!(spec.paths@[i].1 is Reference));
        }
    }
}

/// Operations that are well identified are places with which nothing is wrong.
proof fn lemma_well_identified(operations: Seq<Listed>)
    requires
        well_identified(operations),
    ensures
        first_fault(operations.map_values(|l: Listed| operation_place(l))) is None,
{
    let all = operations.map_values(|l: Listed| operation_place(l));
    lemma_no_fault(all);
    assert forall|i: int| 0 <= i < all.len() implies fault(all, i) is None by {
        assert(operations[i].operation.operation_id is Some);
        let id = operations[i].operation.operation_id.unwrap()@;
        if exists|j: int| 0 <= j < i && has_id(#[trigger] all[j], id) {
            let j = choose|j: int| 0 <= j < i && has_id(#[trigger] all[j], id);
            assert(operations[j].operation.operation_id is Some);
            assert(operations[j].operation.operation_id.unwrap()@ == id);
        }
    }
}

/// What is wrong with one place, after places with which nothing is wrong, is what
/// is wrong with the document.
proof fn lemma_reported(spec: OpenAPI, p: int, k: int, earlier: Seq<Listed>, next: Place)
    requires
        is_three_zero(spec.openapi@),
        0 <= p < spec.paths@.len(),
        forall|i: int| 0 <= i < p ==> (#[trigger] spec.paths@[i]).1 is Item,
        0 <= k < path_places(spec.paths@[p]).len(),
        earlier.map_values(|l: Listed| operation_place(l)) == operations_of(
            spec.paths@.take(p),
        ).map_values(|l: Listed| operation_place(l)) + path_places(spec.paths@[p]).take(k),
        well_identified(earlier),
        next == path_places(spec.paths@[p])[k],
        fault(
            earlier.map_values(|l: Listed| operation_place(l)).push(next),
            earlier.len() as int,
        ) is Some,
    ensures
        objection(spec) == fault(
            earlier.map_values(|l: Listed| operation_place(l)).push(next),
            earlier.len() as int,
        ),
{
    let paths = spec.paths@;
    let all = places(paths);
    let seen = earlier.map_values(|l: Listed| operation_place(l));
    law_supported_versions(spec.openapi@);
    lemma_well_identified(earlier);
    lemma_places(paths.take(p));
    assert(paths_in_place(paths.take(p))) by {
        assert forall|i: int| 0 <= i < p implies (#[trigger] paths.take(p)[i]).1 is Item by {
            assert(paths[i].1 is Item);
        }
    }
    lemma_places_of_prefix(paths, p + 1);
    assert(paths.take(p + 1).drop_last() =~= paths.take(p));
    let here = places(paths.take(p + 1));
    assert(here == places(paths.take(p)) + path_places(paths[p]));
    assert(all.take(seen.len() + 1int) =~= here.take(seen.len() + 1int));
    assert(here.take(seen.len() + 1int) =~= seen.push(next));
    assert(seen.push(next).drop_last() =~= seen);
    lemma_first_fault_of_prefix(all, seen.len() + 1int);
}

/// The first path that is a reference is reported by its name, where nothing is
/// wrong with the paths before it.
pub proof fn law_reference_is_reported(spec: OpenAPI, p: int)
    requires
        is_three_zero(spec.openapi@),
        0 <= p < spec.paths@.len(),
        forall|i: int| 0 <= i < p ==> (#[trigger] spec.paths@[i]).1 is Item,
        well_identified(operations_of(spec.paths@.take(p))),
        spec.paths@[p].1 is Reference,
    ensures
        objection(spec) == Some(
            "path "@ + spec.paths@[p].0@ + " uses reference, unsupported"@,
        ),
{
    let earlier = operations_of(spec.paths@.take(p));
    let seen = earlier.map_values(|l: Listed| operation_place(l));
    let here = path_places(spec.paths@[p]);
    assert(seen + here.take(0) =~= seen);
    lemma_reported(spec, p, 0, earlier, here[0]);
}

/// The first operation without an identifier is reported by its path, where
/// nothing is wrong with what comes before it.
pub proof fn law_missing_identifier_is_reported(spec: OpenAPI, p: int, k: int)
    requires
        is_three_zero(spec.openapi@),
        0 <= p < spec.paths@.len(),
        forall|i: int| 0 <= i <= p ==> (#[trigger] spec.paths@[i]).1 is Item,
        0 <= k < path_operations(spec.paths@[p]).len(),
        well_identified(
            operations_of(spec.paths@.take(p)) + path_operations(spec.paths@[p]).take(k),
        ),
        path_operations(spec.paths@[p])[k].operation.operation_id is None,
    ensures
        objection(spec) == Some("path "@ + spec.paths@[p].0@ + " is missing operation ID"@),
{
    let before = operations_of(spec.paths@.take(p));
    let listed = path_operations(spec.paths@[p]);
    let earlier = before + listed.take(k);
    assert(spec.paths@[p].1 is Item);
    assert(earlier.map_values(|l: Listed| operation_place(l)) =~= before.map_values(
        |l: Listed| operation_place(l),
    ) + path_places(spec.paths@[p]).take(k));
    lemma_reported(spec, p, k, earlier, path_places(spec.paths@[p])[k]);
}

/// The first operation whose identifier another has already is reported by its
/// identifier, where nothing is wrong with what comes before it.
pub proof fn law_repeated_identifier_is_reported(
    spec: OpenAPI,
    p: int,
    k: int,
    first: int,
    id: Seq<char>,
)
    requires
        is_three_zero(spec.openapi@),
        0 <= p < spec.paths@.len(),
        forall|i: int| 0 <= i <= p ==> (#[trigger] spec.paths@[i]).1 is Item,
        0 <= k < path_operations(spec.paths@[p]).len(),
        well_identified(
            operations_of(spec.paths@.take(p)) + path_operations(spec.paths@[p]).take(k),
        ),
        path_operations(spec.paths@[p])[k].operation.operation_id matches Some(own) && own@ == id,
        0 <= first < operations_of(spec.paths@.take(p)).len() + k,
        (operations_of(spec.paths@.take(p)) + path_operations(
            spec.paths@[p],
        ).take(k))[first].operation.operation_id.unwrap()@ == id,
    ensures
        objection(spec) == Some("duplicate operation ID: "@ + id),
{
    let before = operations_of(spec.paths@.take(p));
    let listed = path_operations(spec.paths@[p]);
    let earlier = before + listed.take(k);
    let seen = earlier.map_values(|l: Listed| operation_place(l));
    let next = path_places(spec.paths@[p])[k];
    assert(spec.paths@[p].1 is Item);
    assert(seen =~= before.map_values(|l: Listed| operation_place(l)) + path_places(
        spec.paths@[p],
    ).take(k));
    assert(earlier[first].operation.operation_id is Some);
    assert(has_id(seen.push(next)[first], id));
    lemma_reported(spec, p, k, earlier, next);
}

/// A version that is not supported is reported before anything else.
pub proof fn law_version_is_reported(spec: OpenAPI)
    requires
        !is_three_zero(spec.openapi@),
    ensures
        objection(spec) == Some("invalid version: "@ + spec.openapi@),
{
    law_supported_versions(spec.openapi@);
}

} // verus!
