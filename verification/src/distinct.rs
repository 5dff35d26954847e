//! Items without their repetitions.
use vstd::prelude::*;

verus! {

/// What a sequence holds, each once, in the order of its first occurrence.
pub open spec fn distinct<A>(all: Seq<A>) -> Seq<A>
    decreases all.len(),
{
    if all.len() == 0 {
        Seq::empty()
    } else {
        let earlier = distinct(all.drop_last());
        if earlier.contains(all.last()) {
            earlier
        } else {
            earlier.push(all.last())
        }
    }
}

/// The distinct items of a sequence are its items, and none of them occurs twice.
pub proof fn lemma_distinct<A>(all: Seq<A>)
    ensures
        distinct(all).no_duplicates(),
        forall|a: A| #[trigger] distinct(all).contains(a) <==> all.contains(a),
    decreases all.len(),
{
    if all.len() == 0 {
        assert forall|a: A| #[trigger] distinct(all).contains(a) <==> all.contains(a) by {}
    } else {
        let shorter = all.drop_last();
        let earlier = distinct(shorter);
        lemma_distinct(shorter);
        assert forall|a: A| #[trigger] distinct(all).contains(a) <==> all.contains(a) by {
            if all.contains(a) {
                let i = choose|i: int| 0 <= i < all.len() && all[i] == a;
                if i < shorter.len() {
                    assert(shorter[i] == a);
                    assert(earlier.contains(a));
                    let k = choose|k: int| 0 <= k < earlier.len() && earlier[k] == a;
                    assert(distinct(all)[k] == a);
                } else {
                    if !earlier.contains(a) {
                        assert(distinct(all)[earlier.len() as int] == a);
                    }
                }
            }
            if distinct(all).contains(a) {
                let k = choose|k: int| 0 <= k < distinct(all).len() && distinct(all)[k] == a;
                if k < earlier.len() {
                    assert(earlier[k] == a);
                    assert(earlier.contains(a));
                    let i = choose|i: int| 0 <= i < shorter.len() && shorter[i] == a;
                    assert(all[i] == a);
                } else {
                    assert(all[all.len() - 1] == a);
                }
            }
        }
    }
}

/// The distinct items of a sequence with one more.
pub(crate) proof fn lemma_distinct_push<A>(all: Seq<A>, a: A)
    ensures
        distinct(all.push(a)) == (if all.contains(a) {
            distinct(all)
        } else {
            distinct(all).push(a)
        }),
{
    assert(all.push(a).drop_last() =~= all);
    lemma_distinct(all);
    assert(distinct(all).contains(a) <==> all.contains(a));
}

/// The distinct items keep the order in which they occur first: of two of them, the
/// one that comes first has an occurrence before which the other has none.
pub proof fn law_first_occurrences_in_order<A>(all: Seq<A>, i: int, j: int)
    requires
        0 <= i < j < distinct(all).len(),
    ensures
        exists|k: int|
            {
                &&& 0 <= k < all.len()
                &&& #[trigger] all[k] == distinct(all)[i]
                &&& forall|m: int| 0 <= m <= k ==> #[trigger] all[m] != distinct(all)[j]
            },
    decreases all.len(),
{
    let shorter = all.drop_last();
    let earlier = distinct(shorter);
    lemma_distinct(shorter);
    lemma_distinct(all);
    if j < earlier.len() {
        law_first_occurrences_in_order(shorter, i, j);
        let k = choose|k: int|
            {
                &&& 0 <= k < shorter.len()
                &&& #[trigger] shorter[k] == earlier[i]
                &&& forall|m: int| 0 <= m <= k ==> #[trigger] shorter[m] != earlier[j]
            };
        assert(all[k] == distinct(all)[i]);
        assert forall|m: int| 0 <= m <= k implies #[trigger] all[m] != distinct(all)[j] by {
            assert(shorter[m] != earlier[j]);
        }
    } else {
        assert(earlier.contains(earlier[i]));
        let k = choose|k: int| 0 <= k < shorter.len() && shorter[k] == earlier[i];
        assert(all[k] == distinct(all)[i]);
        assert forall|m: int| 0 <= m <= k implies #[trigger] all[m] != distinct(all)[j] by {
            assert(shorter[m] == all[m]);
            if all[m] == distinct(all)[j] {
                assert(shorter.contains(distinct(all)[j]));
            }
        }
    }
}

} // verus!
