//! The tags of a document.
use crate::document::{OpenAPI, Tag};
use crate::text::{
    comes_before, lemma_precedes_total, lemma_precedes_transitive, precedes, same_text,
};
use vstd::prelude::*;

verus! {

/// The names of tags.
pub open spec fn tag_names(tags: Seq<Tag>) -> Seq<Seq<char>> {
    tags.map_values(|tag: Tag| tag.name@)
}

/// The last tag of a name, where there is one.
pub open spec fn last_tag(tags: Seq<Tag>, name: Seq<char>) -> Option<Tag>
    decreases tags.len(),
{
    if tags.len() == 0 {
        None
    } else if tags.last().name@ == name {
        Some(tags.last())
    } else {
        last_tag(tags.drop_last(), name)
    }
}

/// A table of tags: for each name the last tag that has it, in ascending order of
/// the names.
pub open spec fn is_tag_table(tags: Seq<Tag>, table: Seq<Tag>) -> bool {
    &&& forall|i: int, j: int|
        0 <= i < j < table.len() ==> precedes(
            (#[trigger] table[i]).name@,
            (#[trigger] table[j]).name@,
        )
    &&& forall|i: int|
        0 <= i < table.len() ==> last_tag(tags, (#[trigger] table[i]).name@) == Some(table[i])
    &&& forall|i: int|
        0 <= i < tags.len() ==> exists|k: int|
            0 <= k < table.len() && (#[trigger] table[k]).name@ == (#[trigger] tags[i]).name@
}

/// The tags that are borrowed.
pub open spec fn borrowed(info: Seq<&Tag>) -> Seq<Tag> {
    info.map_values(|tag: &Tag| *tag)
}

/// What one more tag does to a table: it takes the place of the tag that has its
/// name, or comes before the first that has a later name.
proof fn lemma_one_more_tag(tags: Seq<Tag>, table: Seq<Tag>, tag: Tag, k: int)
    requires
        is_tag_table(tags, table),
        0 <= k <= table.len(),
        forall|i: int| 0 <= i < k ==> precedes((#[trigger] table[i]).name@, tag.name@),
        k < table.len() ==> !precedes(table[k].name@, tag.name@),
    ensures
        k < table.len() && table[k].name@ == tag.name@ ==> is_tag_table(
            tags.push(tag),
            table.update(k, tag),
        ),
        !(k < table.len() && table[k].name@ == tag.name@) ==> is_tag_table(
            tags.push(tag),
            table.insert(k, tag),
        ),
{
    let more = tags.push(tag);
    assert(more.drop_last() =~= tags);
    if k < table.len() {
        lemma_precedes_total(table[k].name@, tag.name@);
    }
    if k < table.len() && table[k].name@ == tag.name@ {
        let next = table.update(k, tag);
        assert forall|i: int| 0 <= i < next.len() implies last_tag(
            more,
            (#[trigger] next[i]).name@,
        ) == Some(next[i]) by {
            if i != k {
                assert(next[i] == table[i]);
                if i < k {
                    lemma_precedes_total(table[i].name@, table[k].name@);
                } else {
                    lemma_precedes_total(table[k].name@, table[i].name@);
                }
            }
        }
        assert forall|i: int, j: int| 0 <= i < j < next.len() implies precedes(
            (#[trigger] next[i]).name@,
            (#[trigger] next[j]).name@,
        ) by {
            assert(precedes(table[i].name@, table[j].name@));
        }
        assert forall|i: int| 0 <= i < more.len() implies exists|m: int|
            0 <= m < next.len() && (#[trigger] next[m]).name@ == (#[trigger] more[i]).name@ by {
            if i < tags.len() {
                assert(more[i] == tags[i]);
                let m = choose|m: int|
                    0 <= m < table.len() && (#[trigger] table[m]).name@ == tags[i].name@;
                assert(next[m].name@ == more[i].name@);
            } else {
                assert(next[k].name@ == more[i].name@);
            }
        }
    } else {
        let next = table.insert(k, tag);
        assert forall|i: int| k <= i < table.len() implies precedes(
            tag.name@,
            (#[trigger] table[i]).name@,
        ) by {
            if i > k {
                assert(precedes(table[k].name@, table[i].name@));
                lemma_precedes_transitive(tag.name@, table[k].name@, table[i].name@);
            }
        }
        assert forall|i: int| 0 <= i < next.len() implies #[trigger] next[i] == (if i < k {
            table[i]
        } else if i == k {
            tag
        } else {
            table[i - 1]
        }) by {}
        assert forall|i: int, j: int| 0 <= i < j < next.len() implies precedes(
            (#[trigger] next[i]).name@,
            (#[trigger] next[j]).name@,
        ) by {
            if i < k && j > k {
                assert(precedes(table[i].name@, table[j - 1].name@));
            } else if i > k {
                assert(precedes(table[i - 1].name@, table[j - 1].name@));
            } else if j < k {
                assert(precedes(table[i].name@, table[j].name@));
            }
        }
        assert forall|i: int| 0 <= i < next.len() implies last_tag(
            more,
            (#[trigger] next[i]).name@,
        ) == Some(next[i]) by {
            if i < k {
                lemma_precedes_total(table[i].name@, tag.name@);
            } else if i > k {
                lemma_precedes_total(tag.name@, table[i - 1].name@);
                assert(last_tag(tags, table[i - 1].name@) == Some(table[i - 1]));
            }
        }
        assert forall|i: int| 0 <= i < more.len() implies exists|m: int|
            0 <= m < next.len() && (#[trigger] next[m]).name@ == (#[trigger] more[i]).name@ by {
            if i < tags.len() {
                assert(more[i] == tags[i]);
                let m = choose|m: int|
                    0 <= m < table.len() && (#[trigger] table[m]).name@ == tags[i].name@;
                if m < k {
                    assert(next[m].name@ == more[i].name@);
                } else {
                    assert(next[m + 1].name@ == more[i].name@);
                }
            } else {
                assert(next[k].name@ == more[i].name@);
            }
        }
    }
}

/// The tags of a document by name, in ascending order: where several have the
/// same name, the last of them.
pub fn tag_info<'a>(spec: &'a OpenAPI) -> (info: Vec<&'a Tag>)
    ensures
        is_tag_table(spec.tags@, borrowed(info@)),
{
    let tags: &'a Vec<Tag> = &spec.tags;
    let ghost all = tags@;
    let mut info: Vec<&'a Tag> = Vec::new();
    let mut i: usize = 0;
    while i < tags.len()
        invariant
            0 <= i <= tags@.len(),
            all == tags@,
            is_tag_table(all.take(i as int), borrowed(info@)),
        decreases tags@.len() - i,
    {
        let tag = &tags[i];
        let ghost table = borrowed(info@);
        let mut k: usize = 0;
        while k < info.len() && comes_before(info[k].name.as_str(), tag.name.as_str())
            invariant
                0 <= k <= info@.len(),
                table == borrowed(info@),
                forall|j: int| 0 <= j < k ==> precedes((#[trigger] table[j]).name@, tag.name@),
            decreases info@.len() - k,
        {
            assert(table[k as int] == *info@[k as int]);
            k = k + 1;
        }
        proof {
            if k < info@.len() {
                assert(table[k as int] == *info@[k as int]);
            }
            lemma_one_more_tag(all.take(i as int), table, *tag, k as int);
            assert(all.take(i + 1) =~= all.take(i as int).push(*tag));
        }
        if k < info.len() && same_text(info[k].name.as_str(), tag.name.as_str()) {
            info.set(k, tag);
            assert(borrowed(info@) =~= table.update(k as int, *tag));
        } else {
            info.insert(k, tag);
            assert(borrowed(info@) =~= table.insert(k as int, *tag));
        }
        i = i + 1;
    }
    assert(all.take(i as int) =~= all);
    info
}

/// The last tag of a name is one after which none has the name.
proof fn lemma_last_tag(tags: Seq<Tag>, name: Seq<char>)
    requires
        last_tag(tags, name) is Some,
    ensures
        exists|i: int|
            {
                &&& 0 <= i < tags.len()
                &&& #[trigger] tags[i] == last_tag(tags, name).unwrap()
                &&& forall|j: int| i < j < tags.len() ==> (#[trigger] tags[j]).name@ != name
            },
    decreases tags.len(),
{
    let n = tags.len() - 1;
    if tags[n].name@ == name {
        assert(tags[n] == last_tag(tags, name).unwrap());
    } else {
        let shorter = tags.drop_last();
        lemma_last_tag(shorter, name);
        let i = choose|i: int|
            {
                &&& 0 <= i < shorter.len()
                &&& #[trigger] shorter[i] == last_tag(shorter, name).unwrap()
                &&& forall|j: int| i < j < shorter.len() ==> (#[trigger] shorter[j]).name@ != name
            };
        assert(tags[i] == last_tag(tags, name).unwrap());
        assert forall|j: int| i < j < tags.len() implies (#[trigger] tags[j]).name@ != name by {
            if j < n {
                assert(shorter[j].name@ != name);
            }
        }
    }
}

/// A tag after which none has its name is the last of its name.
proof fn lemma_last_is_last(tags: Seq<Tag>, i: int)
    requires
        0 <= i < tags.len(),
        forall|j: int| i < j < tags.len() ==> (#[trigger] tags[j]).name@ != tags[i].name@,
    ensures
        last_tag(tags, tags[i].name@) == Some(tags[i]),
    decreases tags.len(),
{
    if i < tags.len() - 1 {
        let shorter = tags.drop_last();
        assert(tags.last() == tags[tags.len() - 1]);
        assert forall|j: int| i < j < shorter.len() implies (#[trigger] shorter[j]).name@
            != shorter[i].name@ by {
            assert(shorter[j] == tags[j]);
        }
        lemma_last_is_last(shorter, i);
    }
}

/// In a table each name is listed once, in the order of the characters' code points.
/// What is listed are tags, and of the tags of a name none comes after the one that
/// is listed.
pub proof fn law_last_tag_counts(tags: Seq<Tag>, table: Seq<Tag>)
    requires
        is_tag_table(tags, table),
    ensures
        tag_names(table).no_duplicates(),
        forall|i: int, j: int|
            0 <= i < j < table.len() ==> precedes(
                (#[trigger] table[i]).name@,
                (#[trigger] table[j]).name@,
            ),
        forall|k: int|
            0 <= k < table.len() ==> exists|i: int|
                {
                    &&& 0 <= i < tags.len()
                    &&& #[trigger] tags[i] == #[trigger] table[k]
                    &&& forall|j: int| i < j < tags.len() ==> (#[trigger] tags[j]).name@
                        != table[k].name@
                },
        forall|i: int|
            0 <= i < tags.len() && (forall|j: int|
                i < j < tags.len() ==> (#[trigger] tags[j]).name@ != tags[i].name@)
                ==> table.contains(#[trigger] tags[i]),
{
    assert forall|i: int, j: int|
        0 <= i < tag_names(table).len() && 0 <= j < tag_names(table).len() && i != j implies tag_names(
        table,
    )[i] != tag_names(table)[j] by {
        if i < j {
            assert(precedes(table[i].name@, table[j].name@));
        } else {
            assert(precedes(table[j].name@, table[i].name@));
        }
        lemma_precedes_total(table[i].name@, table[j].name@);
    }
    assert forall|k: int| 0 <= k < table.len() implies exists|i: int|
        {
            &&& 0 <= i < tags.len()
            &&& #[trigger] tags[i] == #[trigger] table[k]
            &&& forall|j: int| i < j < tags.len() ==> (#[trigger] tags[j]).name@ != table[k].name@
        } by {
        lemma_last_tag(tags, table[k].name@);
    }
    assert forall|i: int|
        0 <= i < tags.len() && (forall|j: int|
            i < j < tags.len() ==> (#[trigger] tags[j]).name@ != tags[i].name@) implies table.contains(
        #[trigger] tags[i],
    ) by {
        let k = choose|k: int| 0 <= k < table.len() && (#[trigger] table[k]).name@ == tags[i].name@;
        lemma_last_is_last(tags, i);
        assert(table[k] == tags[i]);
    }
}

/// Tags that are borrowed are the tags themselves.
pub proof fn law_borrowed_tags(info: Seq<&Tag>)
    ensures
        borrowed(info).len() == info.len(),
        forall|i: int| 0 <= i < info.len() ==> #[trigger] borrowed(info)[i] == *info[i],
{
}

} // verus!
