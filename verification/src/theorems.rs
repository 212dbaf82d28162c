//! What holds of every reconciliation.
//!
//! The engine is defined record by record. The theorems here say what that
//! amounts to key by key, and derive from it the cases that an audit relies
//! on: disjoint listings, identical listings, agreeing keys, and listings
//! that arrive cut into pages.

use crate::reconcile::{applied, apply_one, entry_at, reconciled, seeded, Discrepancy};
use crate::record::{flatten, ObjectPage, ObjectRecord};
use vstd::prelude::*;

verus! {

/// The size under which `records` list `key`; where they list it more than
/// once, the size of the last record.
pub open spec fn last_size(records: Seq<ObjectRecord>, key: Seq<char>) -> Option<u64>
    decreases records.len(),
{
    if records.len() == 0 {
        None
    } else if records.last().key@ == key {
        Some(records.last().size)
    } else {
        last_size(records.drop_last(), key)
    }
}

/// The mapping from key to size that a listing amounts to.
pub open spec fn sizes(records: Seq<ObjectRecord>) -> Map<Seq<char>, u64> {
    Map::new(
        |key: Seq<char>| last_size(records, key) is Some,
        |key: Seq<char>| last_size(records, key)->0,
    )
}

/// `records` list `key` at most once.
pub open spec fn listed_at_most_once(records: Seq<ObjectRecord>, key: Seq<char>) -> bool {
    forall|i: int, j: int|
        0 <= i < j < records.len() && (#[trigger] records[i]).key@ == key ==> (
        #[trigger] records[j]).key@ != key
}

/// No key is listed twice.
pub open spec fn keys_distinct(records: Seq<ObjectRecord>) -> bool {
    forall|i: int, j: int|
        0 <= i < j < records.len() ==> (#[trigger] records[i]).key@ != (#[trigger] records[j]).key@
}

/// No key is listed by both.
pub open spec fn keys_disjoint(a: Seq<ObjectRecord>, b: Seq<ObjectRecord>) -> bool {
    forall|i: int, j: int|
        0 <= i < a.len() && 0 <= j < b.len() ==> (#[trigger] a[i]).key@ != (#[trigger] b[j]).key@
}

/// What the sizes that the two backends hold for one key amount to.
pub open spec fn verdict(size_a: Option<u64>, size_b: Option<u64>) -> Option<Discrepancy> {
    match (size_a, size_b) {
        (None, None) => None,
        (Some(a), None) => Some(Discrepancy::OnlyA(a)),
        (None, Some(b)) => Some(Discrepancy::OnlyB(b)),
        (Some(a), Some(b)) => if a == b {
            None
        } else {
            Some(Discrepancy::Mismatch(a, b))
        },
    }
}

/// A key that no record carries has no size, and the other way round.
pub proof fn lemma_last_size_none(records: Seq<ObjectRecord>, key: Seq<char>)
    ensures
        last_size(records, key) is None <==> forall|i: int|
            0 <= i < records.len() ==> (#[trigger] records[i]).key@ != key,
    decreases records.len(),
{
    if records.len() > 0 {
        let front = records.drop_last();
        lemma_last_size_none(front, key);
        if records.last().key@ != key {
            if last_size(records, key) is None {
                assert forall|i: int| 0 <= i < records.len() implies (#[trigger] records[i]).key@
                    != key by {
                    if i < front.len() {
                        assert(front[i].key@ != key);
                    }
                }
            } else {
                let i = choose|i: int| 0 <= i < front.len() && (#[trigger] front[i]).key@ == key;
                assert(records[i].key@ == key);
            }
        } else {
            assert(records[records.len() - 1].key@ == key);
        }
    }
}

/// After seeding, a key that A lists is on record as held by A only, with
/// the size A listed last; every other key is as it was.
pub proof fn lemma_seeded_entry(
    found: Map<Seq<char>, Discrepancy>,
    a: Seq<ObjectRecord>,
    key: Seq<char>,
)
    ensures
        entry_at(seeded(found, a), key) == match last_size(a, key) {
            Some(size) => Some(Discrepancy::OnlyA(size)),
            None => entry_at(found, key),
        },
    decreases a.len(),
{
    if a.len() > 0 {
        lemma_seeded_entry(found, a.drop_last(), key);
    }
}

/// Records of B for other keys leave a key as it was.
pub proof fn lemma_applied_unlisted(
    found: Map<Seq<char>, Discrepancy>,
    b: Seq<ObjectRecord>,
    key: Seq<char>,
)
    requires
        last_size(b, key) is None,
    ensures
        entry_at(applied(found, b), key) == entry_at(found, key),
    decreases b.len(),
{
    if b.len() > 0 {
        lemma_applied_unlisted(found, b.drop_last(), key);
    }
}

/// Where B lists a key at most once, applying B's records does to the key
/// what the one record does.
pub proof fn lemma_applied_entry(
    found: Map<Seq<char>, Discrepancy>,
    b: Seq<ObjectRecord>,
    key: Seq<char>,
)
    requires
        listed_at_most_once(b, key),
    ensures
        entry_at(applied(found, b), key) == match last_size(b, key) {
            Some(size) => entry_at(apply_one(found, key, size), key),
            None => entry_at(found, key),
        },
    decreases b.len(),
{
    if b.len() > 0 {
        let front = b.drop_last();
        let last = b.last();
        assert forall|i: int, j: int|
            0 <= i < j < front.len() && (#[trigger] front[i]).key@ == key implies (
        #[trigger] front[j]).key@ != key by {
            assert(b[i].key@ == key);
            assert(b[j] == front[j]);
        }
        if last.key@ == key {
            assert forall|i: int| 0 <= i < front.len() implies (#[trigger] front[i]).key@
                != key by {
                assert(b[i] == front[i]);
                assert(b[b.len() - 1].key@ == key);
            }
            lemma_last_size_none(front, key);
            lemma_applied_unlisted(found, front, key);
        } else {
            lemma_applied_entry(found, front, key);
        }
    }
}

/// The outcome for one key: where B lists the key at most once, the map
/// holds for it exactly what the two backends' sizes amount to. A key stays
/// in the map if and only if one backend alone holds it, or both hold it
/// with different sizes.
pub proof fn theorem_reconciled_entry(a: Seq<ObjectRecord>, b: Seq<ObjectRecord>, key: Seq<char>)
    requires
        listed_at_most_once(b, key),
    ensures
        entry_at(reconciled(a, b), key) == verdict(last_size(a, key), last_size(b, key)),
{
    let seed = seeded(Map::<Seq<char>, Discrepancy>::empty(), a);
    lemma_seeded_entry(Map::<Seq<char>, Discrepancy>::empty(), a, key);
    lemma_applied_entry(seed, b, key);
}

/// A key that both backends list with the same size, B once, is not in the
/// result.
pub proof fn theorem_agreeing_key_cancels(
    a: Seq<ObjectRecord>,
    b: Seq<ObjectRecord>,
    key: Seq<char>,
)
    requires
        listed_at_most_once(b, key),
        last_size(a, key) is Some,
        last_size(a, key) == last_size(b, key),
    ensures
        !reconciled(a, b).contains_key(key),
{
    theorem_reconciled_entry(a, b, key);
}

/// Listings that hold the same keys with the same sizes reconcile to the
/// empty map.
pub proof fn theorem_identical_listings_cancel(a: Seq<ObjectRecord>, b: Seq<ObjectRecord>)
    requires
        keys_distinct(b),
        sizes(a) == sizes(b),
    ensures
        reconciled(a, b) == Map::<Seq<char>, Discrepancy>::empty(),
{
    assert forall|key: Seq<char>| !reconciled(a, b).contains_key(key) by {
        assert(sizes(a).contains_key(key) == (last_size(a, key) is Some));
        assert(sizes(b).contains_key(key) == (last_size(b, key) is Some));
        if last_size(a, key) is Some {
            assert(sizes(a)[key] == last_size(a, key)->0);
            assert(sizes(b)[key] == last_size(b, key)->0);
        }
        assert(last_size(a, key) == last_size(b, key));
        assert(listed_at_most_once(b, key));
        theorem_reconciled_entry(a, b, key);
    }
    assert(reconciled(a, b) =~= Map::<Seq<char>, Discrepancy>::empty());
}

/// What `sizes` holds for `key`, if anything.
pub open spec fn size_at(sizes: Map<Seq<char>, u64>, key: Seq<char>) -> Option<u64> {
    if sizes.contains_key(key) {
        Some(sizes[key])
    } else {
        None
    }
}

/// The mismatches between two mappings from key to size: the keys that one
/// of them alone holds, and the keys that they hold with different sizes.
pub open spec fn difference(sizes_a: Map<Seq<char>, u64>, sizes_b: Map<Seq<char>, u64>) -> Map<
    Seq<char>,
    Discrepancy,
> {
    Map::new(
        |key: Seq<char>| verdict(size_at(sizes_a, key), size_at(sizes_b, key)) is Some,
        |key: Seq<char>| verdict(size_at(sizes_a, key), size_at(sizes_b, key))->0,
    )
}

/// The outcome as a whole: where B lists no key twice, the result is the
/// difference of the two listings' key-to-size mappings.
pub proof fn theorem_reconciled_is_difference(a: Seq<ObjectRecord>, b: Seq<ObjectRecord>)
    requires
        keys_distinct(b),
    ensures
        reconciled(a, b) == difference(sizes(a), sizes(b)),
{
    assert forall|key: Seq<char>|
        entry_at(reconciled(a, b), key) == entry_at(difference(sizes(a), sizes(b)), key) by {
        assert(listed_at_most_once(b, key));
        theorem_reconciled_entry(a, b, key);
        assert(size_at(sizes(a), key) == last_size(a, key));
        assert(size_at(sizes(b), key) == last_size(b, key));
    }
    assert forall|key: Seq<char>|
        reconciled(a, b).contains_key(key) == difference(sizes(a), sizes(b)).contains_key(
            key,
        ) by {
        assert(entry_at(reconciled(a, b), key) == entry_at(difference(sizes(a), sizes(b)), key));
    }
    assert forall|key: Seq<char>| reconciled(a, b).contains_key(key) implies reconciled(a, b)[key]
        == difference(sizes(a), sizes(b))[key] by {
        assert(entry_at(reconciled(a, b), key) == entry_at(difference(sizes(a), sizes(b)), key));
    }
    assert(reconciled(a, b) =~= difference(sizes(a), sizes(b)));
}

/// A key that A's records have left alone ends up as held by B only, with
/// the size B listed last, however often B lists it.
pub proof fn lemma_applied_new_key(
    found: Map<Seq<char>, Discrepancy>,
    b: Seq<ObjectRecord>,
    key: Seq<char>,
)
    requires
        entry_at(found, key) is None || entry_at(found, key)->0 is OnlyB,
    ensures
        entry_at(applied(found, b), key) == match last_size(b, key) {
            Some(size) => Some(Discrepancy::OnlyB(size)),
            None => entry_at(found, key),
        },
    decreases b.len(),
{
    if b.len() > 0 {
        lemma_applied_new_key(found, b.drop_last(), key);
    }
}

/// Listings without a common key reconcile to their union: every key of A
/// as held by A only, every key of B as held by B only, each with its size.
pub proof fn theorem_disjoint_listings_unite(a: Seq<ObjectRecord>, b: Seq<ObjectRecord>)
    requires
        keys_disjoint(a, b),
    ensures
        reconciled(a, b) == sizes(a).map_values(|size: u64| Discrepancy::OnlyA(size)).union_prefer_right(
            sizes(b).map_values(|size: u64| Discrepancy::OnlyB(size)),
        ),
{
    let nothing = Map::<Seq<char>, Discrepancy>::empty();
    let seed = seeded(nothing, a);
    let held_by_a = sizes(a).map_values(|size: u64| Discrepancy::OnlyA(size));
    let held_by_b = sizes(b).map_values(|size: u64| Discrepancy::OnlyB(size));
    let union = held_by_a.union_prefer_right(held_by_b);
    assert forall|key: Seq<char>| entry_at(reconciled(a, b), key) == entry_at(union, key) by {
        lemma_seeded_entry(nothing, a, key);
        lemma_last_size_none(a, key);
        lemma_last_size_none(b, key);
        assert(held_by_a.contains_key(key) == (last_size(a, key) is Some));
        assert(held_by_b.contains_key(key) == (last_size(b, key) is Some));
        if last_size(a, key) is Some {
            let i = choose|i: int| 0 <= i < a.len() && (#[trigger] a[i]).key@ == key;
            assert forall|j: int| 0 <= j < b.len() implies (#[trigger] b[j]).key@ != key by {
                assert(a[i].key@ != b[j].key@);
            }
            lemma_applied_unlisted(seed, b, key);
            assert(held_by_a[key] == Discrepancy::OnlyA(last_size(a, key)->0));
        } else {
            lemma_applied_new_key(seed, b, key);
            if last_size(b, key) is Some {
                assert(held_by_b[key] == Discrepancy::OnlyB(last_size(b, key)->0));
            }
        }
    }
    assert forall|key: Seq<char>| reconciled(a, b).contains_key(key) == union.contains_key(
        key,
    ) by {
        assert(entry_at(reconciled(a, b), key) == entry_at(union, key));
    }
    assert forall|key: Seq<char>| reconciled(a, b).contains_key(key) implies reconciled(a, b)[key]
        == union[key] by {
        assert(entry_at(reconciled(a, b), key) == entry_at(union, key));
    }
    assert(reconciled(a, b) =~= union);
}

/// Every entry that records two sizes records two different sizes.
pub open spec fn consistent(found: Map<Seq<char>, Discrepancy>) -> bool {
    forall|key: Seq<char>| #[trigger]
        found.contains_key(key) ==> match found[key] {
            Discrepancy::Mismatch(size_a, size_b) => size_a != size_b,
            _ => true,
        }
}

/// Seeding keeps a map consistent.
pub proof fn lemma_seeded_consistent(found: Map<Seq<char>, Discrepancy>, a: Seq<ObjectRecord>)
    requires
        consistent(found),
    ensures
        consistent(seeded(found, a)),
    decreases a.len(),
{
    if a.len() > 0 {
        lemma_seeded_consistent(found, a.drop_last());
    }
}

/// Applying B's records keeps a map consistent.
pub proof fn lemma_applied_consistent(found: Map<Seq<char>, Discrepancy>, b: Seq<ObjectRecord>)
    requires
        consistent(found),
    ensures
        consistent(applied(found, b)),
    decreases b.len(),
{
    if b.len() > 0 {
        lemma_applied_consistent(found, b.drop_last());
    }
}

/// A result never reports a mismatch between two equal sizes.
pub proof fn theorem_mismatch_sizes_differ(a: Seq<ObjectRecord>, b: Seq<ObjectRecord>)
    ensures
        consistent(reconciled(a, b)),
{
    let nothing = Map::<Seq<char>, Discrepancy>::empty();
    lemma_seeded_consistent(nothing, a);
    lemma_applied_consistent(seeded(nothing, a), b);
}

/// Seeding with two listings in a row is seeding with the two joined.
pub proof fn lemma_seeded_concat(
    found: Map<Seq<char>, Discrepancy>,
    first: Seq<ObjectRecord>,
    second: Seq<ObjectRecord>,
)
    ensures
        seeded(found, first + second) == seeded(seeded(found, first), second),
    decreases second.len(),
{
    if second.len() == 0 {
        assert(first + second == first);
    } else {
        assert((first + second).drop_last() == first + second.drop_last());
        lemma_seeded_concat(found, first, second.drop_last());
    }
}

/// Applying two listings in a row is applying the two joined.
pub proof fn lemma_applied_concat(
    found: Map<Seq<char>, Discrepancy>,
    first: Seq<ObjectRecord>,
    second: Seq<ObjectRecord>,
)
    ensures
        applied(found, first + second) == applied(applied(found, first), second),
    decreases second.len(),
{
    if second.len() == 0 {
        assert(first + second == first);
    } else {
        assert((first + second).drop_last() == first + second.drop_last());
        lemma_applied_concat(found, first, second.drop_last());
    }
}

/// `found` after backend A's pages, taken in one page after the other.
pub open spec fn seeded_by_pages(found: Map<Seq<char>, Discrepancy>, pages: Seq<ObjectPage>) -> Map<
    Seq<char>,
    Discrepancy,
>
    decreases pages.len(),
{
    if pages.len() == 0 {
        found
    } else {
        seeded(seeded_by_pages(found, pages.drop_last()), pages.last().records@)
    }
}

/// `found` after backend B's pages, applied one page after the other.
pub open spec fn applied_by_pages(found: Map<Seq<char>, Discrepancy>, pages: Seq<ObjectPage>) -> Map<
    Seq<char>,
    Discrepancy,
>
    decreases pages.len(),
{
    if pages.len() == 0 {
        found
    } else {
        applied(applied_by_pages(found, pages.drop_last()), pages.last().records@)
    }
}

/// Seeding page by page is seeding with the whole listing.
pub proof fn lemma_seeded_by_pages(found: Map<Seq<char>, Discrepancy>, pages: Seq<ObjectPage>)
    ensures
        seeded_by_pages(found, pages) == seeded(found, flatten(pages)),
    decreases pages.len(),
{
    if pages.len() > 0 {
        lemma_seeded_by_pages(found, pages.drop_last());
        lemma_seeded_concat(found, flatten(pages.drop_last()), pages.last().records@);
    }
}

/// Applying page by page is applying the whole listing.
pub proof fn lemma_applied_by_pages(found: Map<Seq<char>, Discrepancy>, pages: Seq<ObjectPage>)
    ensures
        applied_by_pages(found, pages) == applied(found, flatten(pages)),
    decreases pages.len(),
{
    if pages.len() > 0 {
        lemma_applied_by_pages(found, pages.drop_last());
        lemma_applied_concat(found, flatten(pages.drop_last()), pages.last().records@);
    }
}

/// Page boundaries do not matter: however the two listings are cut into
/// pages, taking them in page by page gives the map of one pass over the
/// uncut listings.
pub proof fn theorem_page_boundaries_irrelevant(pages_a: Seq<ObjectPage>, pages_b: Seq<ObjectPage>)
    ensures
        applied_by_pages(
            seeded_by_pages(Map::<Seq<char>, Discrepancy>::empty(), pages_a),
            pages_b,
        ) == reconciled(flatten(pages_a), flatten(pages_b)),
{
    let nothing = Map::<Seq<char>, Discrepancy>::empty();
    lemma_seeded_by_pages(nothing, pages_a);
    lemma_applied_by_pages(seeded_by_pages(nothing, pages_a), pages_b);
}

} // verus!
