//! The reconciliation engine: which keys of a bucket disagree between two
//! backends, in presence or in size.
//!
//! The engine is seeded with backend A's records and then applies backend
//! B's records one by one, in listing order. A key on which both backends
//! agree cancels out; what is left are the keys held by one backend only
//! and the keys whose sizes differ.
//!
//! Within one backend a key is expected once. Where it is listed again the
//! later record replaces what the earlier one left behind. One case cannot
//! be told apart: a key that has cancelled out is gone from the map, so a
//! further record of B for it is taken as a key that only B holds.

use crate::record::ObjectRecord;
use vstd::hash_map::StringHashMap;
use vstd::prelude::*;

verus! {

/// How the two backends disagree on one key.
#[derive(Clone, Copy, Debug, PartialEq, Eq, Structural)]
pub enum Discrepancy {
    /// Only backend A lists the key, with this size.
    OnlyA(u64),
    /// Only backend B lists the key, with this size.
    OnlyB(u64),
    /// Both list the key: A with the first size, B with the second.
    Mismatch(u64, u64),
}

/// One line of a mismatch report.
#[derive(Clone, Debug, PartialEq, Eq)]
pub struct Finding {
    pub key: String,
    pub discrepancy: Discrepancy,
}

/// What `found` holds for `key`, if anything.
pub open spec fn entry_at(found: Map<Seq<char>, Discrepancy>, key: Seq<char>) -> Option<
    Discrepancy,
> {
    if found.contains_key(key) {
        Some(found[key])
    } else {
        None
    }
}

/// Backend A lists `key` with `size`: the record replaces whatever the map
/// held for the key.
pub open spec fn seed_one(found: Map<Seq<char>, Discrepancy>, key: Seq<char>, size: u64) -> Map<
    Seq<char>,
    Discrepancy,
> {
    found.insert(key, Discrepancy::OnlyA(size))
}

/// Backend B lists `key` with `size`.
///
/// - The key is absent: it is entered as held by B only.
/// - A's size is on record and equals `size`: the key cancels out.
/// - A's size is on record and differs: the key stays, with both sizes.
/// - The key is on record as held by B only: `size` replaces B's earlier one.
pub open spec fn apply_one(found: Map<Seq<char>, Discrepancy>, key: Seq<char>, size: u64) -> Map<
    Seq<char>,
    Discrepancy,
> {
    match entry_at(found, key) {
        None => found.insert(key, Discrepancy::OnlyB(size)),
        Some(Discrepancy::OnlyB(_)) => found.insert(key, Discrepancy::OnlyB(size)),
        Some(Discrepancy::OnlyA(size_a)) | Some(Discrepancy::Mismatch(size_a, _)) => if size_a
            == size {
            found.remove(key)
        } else {
            found.insert(key, Discrepancy::Mismatch(size_a, size))
        },
    }
}

/// `found` after backend A's `records`, in listing order.
pub open spec fn seeded(found: Map<Seq<char>, Discrepancy>, records: Seq<ObjectRecord>) -> Map<
    Seq<char>,
    Discrepancy,
>
    decreases records.len(),
{
    if records.len() == 0 {
        found
    } else {
        seed_one(seeded(found, records.drop_last()), records.last().key@, records.last().size)
    }
}

/// `found` after backend B's `records`, in listing order.
pub open spec fn applied(found: Map<Seq<char>, Discrepancy>, records: Seq<ObjectRecord>) -> Map<
    Seq<char>,
    Discrepancy,
>
    decreases records.len(),
{
    if records.len() == 0 {
        found
    } else {
        apply_one(applied(found, records.drop_last()), records.last().key@, records.last().size)
    }
}

/// The mismatching keys of a bucket that backend A lists as `a` and backend
/// B as `b`.
pub open spec fn reconciled(a: Seq<ObjectRecord>, b: Seq<ObjectRecord>) -> Map<
    Seq<char>,
    Discrepancy,
> {
    applied(seeded(Map::<Seq<char>, Discrepancy>::empty(), a), b)
}

/// `listing` holds each entry of `found` once, and nothing else.
pub open spec fn lists(listing: Seq<Finding>, found: Map<Seq<char>, Discrepancy>) -> bool {
    &&& forall|i: int|
        0 <= i < listing.len() ==> entry_at(found, (#[trigger] listing[i]).key@) == Some(
            listing[i].discrepancy,
        )
    &&& forall|i: int, j: int|
        0 <= i < j < listing.len() ==> (#[trigger] listing[i]).key@ != (#[trigger] listing[j]).key@
    &&& forall|key: Seq<char>| #[trigger]
        found.contains_key(key) ==> exists|i: int|
            0 <= i < listing.len() && (#[trigger] listing[i]).key@ == key
}

/// The mismatching keys of one bucket: a map from key to discrepancy.
pub struct ReconciliationMap {
    found: StringHashMap<Discrepancy>,
    /// Every key of `found`, and possibly keys that have left it.
    touched: Vec<String>,
}

impl View for ReconciliationMap {
    type V = Map<Seq<char>, Discrepancy>;

    closed spec fn view(&self) -> Map<Seq<char>, Discrepancy> {
        self.found@
    }
}

impl ReconciliationMap {
    #[verifier::type_invariant]
    spec fn every_key_touched(self) -> bool {
        covers(self.touched@, self.found@)
    }

    /// A map without entries.
    pub fn new() -> (map: ReconciliationMap)
        ensures
            map@ == Map::<Seq<char>, Discrepancy>::empty(),
    {
        ReconciliationMap { found: StringHashMap::new(), touched: Vec::new() }
    }

    /// The number of mismatching keys.
    pub fn len(&self) -> (n: usize)
        ensures
            n == self@.len(),
    {
        self.found.len()
    }

    /// Tells whether the two backends agree on every key.
    pub fn is_empty(&self) -> (empty: bool)
        ensures
            empty == (self@ == Map::<Seq<char>, Discrepancy>::empty()),
    {
        let empty = self.found.is_empty();
        proof {
            if empty {
                assert(self.found@ =~= Map::<Seq<char>, Discrepancy>::empty());
            }
        }
        empty
    }

    /// The discrepancy on record for `key`, if there is one.
    pub fn get(&self, key: &str) -> (entry: Option<Discrepancy>)
        ensures
            entry == entry_at(self@, key@),
    {
        match self.found.get(key) {
            Some(discrepancy) => Some(*discrepancy),
            None => None,
        }
    }

    /// The entries of the map, each once. They come in the order in which
    /// their keys first came up in the listings; the contract leaves the
    /// order open.
    pub fn entries(&self) -> (listing: Vec<Finding>)
        ensures
            lists(listing@, self@),
            listing.len() == self@.len(),
    {
        proof {
            use_type_invariant(self);
        }
        let mut listing: Vec<Finding> = Vec::new();
        let mut emitted: StringHashMap<bool> = StringHashMap::new();
        let mut i: usize = 0;
        while i < self.touched.len()
            invariant
                0 <= i <= self.touched.len(),
                covers(self.touched@, self.found@),
                forall|j: int|
                    0 <= j < listing.len() ==> entry_at(
                        self.found@,
                        (#[trigger] listing[j]).key@,
                    ) == Some(listing[j].discrepancy) && emitted@.contains_key(listing[j].key@),
                forall|j: int, k: int|
                    0 <= j < k < listing.len() ==> (#[trigger] listing[j]).key@ != (
                    #[trigger] listing[k]).key@,
                forall|key: Seq<char>| #[trigger]
                    emitted@.contains_key(key) ==> exists|j: int|
                        0 <= j < listing.len() && (#[trigger] listing[j]).key@ == key,
                forall|p: int|
                    0 <= p < i && self.found@.contains_key((#[trigger] self.touched[p])@)
                        ==> emitted@.contains_key(self.touched[p]@),
            decreases self.touched.len() - i,
        {
            let key = &self.touched[i];
            if !emitted.contains_key(key.as_str()) {
                match self.found.get(key.as_str()) {
                    Some(discrepancy) => {
                        let ghost before = listing@;
                        let ghost marked = emitted@;
                        listing.push(Finding { key: key.clone(), discrepancy: *discrepancy });
                        emitted.insert(key.clone(), true);
                        proof {
                            assert forall|name: Seq<char>| #[trigger]
                                emitted@.contains_key(name) implies exists|j: int|
                                0 <= j < listing.len() && (#[trigger] listing[j]).key@
                                    == name by {
                                if name == key@ {
                                    assert(listing[before.len() as int].key@ == name);
                                } else {
                                    assert(marked.contains_key(name));
                                    let j = choose|j: int|
                                        0 <= j < before.len() && (#[trigger] before[j]).key@
                                            == name;
                                    assert(listing[j].key@ == name);
                                }
                            }
                        }
                    },
                    None => {},
                }
            }
            i += 1;
        }
        proof {
            assert forall|name: Seq<char>| #[trigger]
                self.found@.contains_key(name) implies exists|j: int|
                0 <= j < listing.len() && (#[trigger] listing[j]).key@ == name by {
                let p = choose|p: int|
                    0 <= p < self.touched.len() && (#[trigger] self.touched[p])@ == name;
                assert(emitted@.contains_key(self.touched[p]@));
            }
            lemma_lists_length(listing@, self.found@);
        }
        listing
    }

    /// Takes in records of backend A, in listing order.
    pub fn seed(self, records: Vec<ObjectRecord>) -> (map: ReconciliationMap)
        ensures
            map@ == seeded(self@, records@),
    {
        proof {
            use_type_invariant(&self);
        }
        let ghost listed = records@;
        let ghost start = self@;
        let ReconciliationMap { mut found, mut touched } = self;
        for record in it: records
            invariant
                it.seq() == listed,
                found@ == seeded(start, listed.take(it.index() as int)),
                covers(touched@, found@),
        {
            proof {
                let i = it.index() as int;
                assert(listed.take(i + 1).drop_last() == listed.take(i));
                lemma_covers_push(touched@, found@, record.key@, Discrepancy::OnlyA(record.size));
            }
            touched.push(record.key.clone());
            found.insert(record.key, Discrepancy::OnlyA(record.size));
        }
        proof {
            assert(listed.take(listed.len() as int) == listed);
        }
        ReconciliationMap { found, touched }
    }

    /// Applies records of backend B, in listing order.
    pub fn apply(self, records: Vec<ObjectRecord>) -> (map: ReconciliationMap)
        ensures
            map@ == applied(self@, records@),
    {
        proof {
            use_type_invariant(&self);
        }
        let ghost listed = records@;
        let ghost start = self@;
        let ReconciliationMap { mut found, mut touched } = self;
        for record in it: records
            invariant
                it.seq() == listed,
                found@ == applied(start, listed.take(it.index() as int)),
                covers(touched@, found@),
        {
            proof {
                let i = it.index() as int;
                assert(listed.take(i + 1).drop_last() == listed.take(i));
            }
            let on_record = match found.get(record.key.as_str()) {
                Some(discrepancy) => Some(*discrepancy),
                None => None,
            };
            match on_record {
                None => {
                    proof {
                        lemma_covers_push(
                            touched@,
                            found@,
                            record.key@,
                            Discrepancy::OnlyB(record.size),
                        );
                    }
                    touched.push(record.key.clone());
                    found.insert(record.key, Discrepancy::OnlyB(record.size));
                },
                Some(Discrepancy::OnlyB(_)) => {
                    proof {
                        lemma_covers_replace(
                            touched@,
                            found@,
                            record.key@,
                            Discrepancy::OnlyB(record.size),
                        );
                    }
                    found.insert(record.key, Discrepancy::OnlyB(record.size));
                },
                Some(Discrepancy::OnlyA(size_a)) | Some(Discrepancy::Mismatch(size_a, _)) => {
                    if size_a == record.size {
                        found.remove(record.key.as_str());
                    } else {
                        proof {
                            lemma_covers_replace(
                                touched@,
                                found@,
                                record.key@,
                                Discrepancy::Mismatch(size_a, record.size),
                            );
                        }
                        found.insert(record.key, Discrepancy::Mismatch(size_a, record.size));
                    }
                },
            }
        }
        proof {
            assert(listed.take(listed.len() as int) == listed);
        }
        ReconciliationMap { found, touched }
    }
}

/// A listing of a map is as long as the map is large.
pub proof fn lemma_lists_length(listing: Seq<Finding>, found: Map<Seq<char>, Discrepancy>)
    requires
        lists(listing, found),
    ensures
        listing.len() == found.len(),
{
    let keys = listing.map_values(|finding: Finding| finding.key@);
    assert forall|i: int, j: int|
        0 <= i < keys.len() && 0 <= j < keys.len() && i != j implies keys[i] != keys[j] by {
        if i < j {
            assert(listing[i].key@ != listing[j].key@);
        } else {
            assert(listing[j].key@ != listing[i].key@);
        }
    }
    keys.unique_seq_to_set();
    assert forall|key: Seq<char>| keys.to_set().contains(key) == found.dom().contains(key) by {
        if keys.contains(key) {
            let i = choose|i: int| 0 <= i < keys.len() && keys[i] == key;
            assert(entry_at(found, listing[i].key@) is Some);
        }
        if found.contains_key(key) {
            let i = choose|i: int| 0 <= i < listing.len() && (#[trigger] listing[i]).key@ == key;
            assert(keys[i] == key);
        }
    }
    assert(keys.to_set() =~= found.dom());
}

/// Every key of `found` occurs in `touched`.
pub open spec fn covers(touched: Seq<String>, found: Map<Seq<char>, Discrepancy>) -> bool {
    forall|key: Seq<char>| #[trigger]
        found.contains_key(key) ==> exists|i: int|
            0 <= i < touched.len() && (#[trigger] touched[i])@ == key
}

proof fn lemma_covers_push(
    touched: Seq<String>,
    found: Map<Seq<char>, Discrepancy>,
    key: Seq<char>,
    discrepancy: Discrepancy,
)
    requires
        covers(touched, found),
    ensures
        forall|name: String|
            name@ == key ==> covers(#[trigger] touched.push(name), found.insert(key, discrepancy)),
{
    assert forall|name: String| name@ == key implies covers(
        #[trigger] touched.push(name),
        found.insert(key, discrepancy),
    ) by {
        let longer = touched.push(name);
        assert forall|other: Seq<char>| #[trigger]
            found.insert(key, discrepancy).contains_key(other) implies exists|i: int|
            0 <= i < longer.len() && (#[trigger] longer[i])@ == other by {
            if other == key {
                assert(longer[touched.len() as int]@ == other);
            } else {
                assert(found.contains_key(other));
                let i = choose|i: int| 0 <= i < touched.len() && (#[trigger] touched[i])@ == other;
                assert(longer[i]@ == other);
            }
        }
    }
}

proof fn lemma_covers_replace(
    touched: Seq<String>,
    found: Map<Seq<char>, Discrepancy>,
    key: Seq<char>,
    discrepancy: Discrepancy,
)
    requires
        covers(touched, found),
        found.contains_key(key),
    ensures
        covers(touched, found.insert(key, discrepancy)),
{
    assert forall|other: Seq<char>| #[trigger]
        found.insert(key, discrepancy).contains_key(other) implies exists|i: int|
        0 <= i < touched.len() && (#[trigger] touched[i])@ == other by {
        assert(found.contains_key(other));
    }
}

/// Reconciles one bucket: `a` is what backend A lists, `b` what backend B
/// lists, both already filtered.
pub fn reconcile(a: Vec<ObjectRecord>, b: Vec<ObjectRecord>) -> (map: ReconciliationMap)
    ensures
        map@ == reconciled(a@, b@),
{
    ReconciliationMap::new().seed(a).apply(b)
}

} // verus!
