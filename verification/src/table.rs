//! Tables: records kept under distinct keys, in the order of their keys.
use vstd::prelude::*;

use crate::error::EngineError;
use crate::model;
use crate::records::{EngineRecord, RecordKey};
use crate::text;

verus! {

/// Whether the records stand in the order of their keys, no key twice.
pub open spec fn keyed<R: EngineRecord>(records: Seq<R::V>) -> bool {
    forall|i: int, j: int|
        0 <= i < j < records.len() ==> text::text_precedes(
            R::key_of(#[trigger] records[i]),
            R::key_of(#[trigger] records[j]),
        )
}

/// Whether a record is kept under `key`.
pub open spec fn holds<R: EngineRecord>(records: Seq<R::V>, key: Seq<char>) -> bool {
    exists|i: int| 0 <= i < records.len() && R::key_of(#[trigger] records[i]) == key
}

/// Where the record with `key` stands, or would stand: behind every record whose
/// key comes before it.
pub open spec fn slot<R: EngineRecord>(records: Seq<R::V>, key: Seq<char>) -> int
    decreases records.len(),
{
    if records.len() == 0 {
        0
    } else if text::text_precedes(R::key_of(records.last()), key) {
        records.len() as int
    } else {
        slot::<R>(records.drop_last(), key)
    }
}

/// The records with `record` added at its place.
pub open spec fn asserted<R: EngineRecord>(records: Seq<R::V>, record: R::V) -> Seq<R::V> {
    records.insert(slot::<R>(records, R::key_of(record)), record)
}

/// The records with all of `added` added, each at its place.
pub open spec fn asserted_all<R: EngineRecord>(
    records: Seq<R::V>,
    added: Seq<R::V>,
) -> Seq<R::V>
    decreases added.len(),
{
    if added.len() == 0 {
        records
    } else {
        asserted::<R>(asserted_all::<R>(records, added.drop_last()), added.last())
    }
}

/// How many of `added` can be added one after the other before one meets a key
/// that is taken.
pub open spec fn admitted<R: EngineRecord>(records: Seq<R::V>, added: Seq<R::V>) -> nat
    decreases added.len(),
{
    if added.len() == 0 {
        0
    } else {
        let earlier = added.drop_last();
        let count = admitted::<R>(records, earlier);
        if count < earlier.len() || holds::<R>(
            asserted_all::<R>(records, earlier),
            R::key_of(added.last()),
        ) {
            count
        } else {
            added.len()
        }
    }
}

/// The records with `record` in place of the one under its key.
pub open spec fn mutated<R: EngineRecord>(records: Seq<R::V>, record: R::V) -> Seq<R::V> {
    records.update(slot::<R>(records, R::key_of(record)), record)
}

/// The records without the one under `key`.
pub open spec fn retracted<R: EngineRecord>(records: Seq<R::V>, key: Seq<char>) -> Seq<R::V> {
    records.remove(slot::<R>(records, key))
}

proof fn lemma_slot_at<R: EngineRecord>(records: Seq<R::V>, key: Seq<char>, at: int)
    requires
        0 <= at <= records.len(),
        forall|i: int| 0 <= i < at ==> text::text_precedes(R::key_of(#[trigger] records[i]), key),
        forall|i: int|
            at <= i < records.len() ==> !text::text_precedes(R::key_of(#[trigger] records[i]), key),
    ensures
        slot::<R>(records, key) == at,
    decreases records.len(),
{
    if records.len() > 0 {
        let last = records[records.len() - 1];
        if !text::text_precedes(R::key_of(last), key) {
            lemma_slot_at::<R>(records.drop_last(), key, at);
        }
    }
}

/// The slot of a key parts the records whose keys come before it from the rest.
pub proof fn lemma_slot<R: EngineRecord>(records: Seq<R::V>, key: Seq<char>)
    requires
        keyed::<R>(records),
    ensures
        0 <= slot::<R>(records, key) <= records.len(),
        forall|i: int|
            0 <= i < slot::<R>(records, key) ==> text::text_precedes(
                R::key_of(#[trigger] records[i]),
                key,
            ),
        forall|i: int|
            slot::<R>(records, key) <= i < records.len() ==> !text::text_precedes(
                R::key_of(#[trigger] records[i]),
                key,
            ),
        holds::<R>(records, key) <==> (slot::<R>(records, key) < records.len() && R::key_of(
            records[slot::<R>(records, key)],
        ) == key),
    decreases records.len(),
{
    let at = slot::<R>(records, key);
    if records.len() > 0 {
        let rest = records.drop_last();
        let last = records[records.len() - 1];
        if text::text_precedes(R::key_of(last), key) {
            assert forall|i: int| 0 <= i < records.len() implies text::text_precedes(
                R::key_of(#[trigger] records[i]),
                key,
            ) by {
                if i < records.len() - 1 {
                    text::lemma_precedes_transitive(R::key_of(records[i]), R::key_of(last), key);
                }
            }
        } else {
            lemma_slot::<R>(rest, key);
            assert forall|i: int| 0 <= i < at implies text::text_precedes(
                R::key_of(#[trigger] records[i]),
                key,
            ) by {
                assert(rest[i] == records[i]);
            }
            assert forall|i: int| at <= i < records.len() implies !text::text_precedes(
                R::key_of(#[trigger] records[i]),
                key,
            ) by {
                if i < rest.len() {
                    assert(rest[i] == records[i]);
                }
            }
        }
    }
    if holds::<R>(records, key) {
        let i = choose|i: int| 0 <= i < records.len() && R::key_of(#[trigger] records[i]) == key;
        text::lemma_precedes_irreflexive(key);
        if i > at {
            assert(text::text_precedes(R::key_of(records[at]), R::key_of(records[i])));
        }
        assert(i == at);
    }
}

/// Adding a record under a fresh key keeps the table in order, keeps every
/// record, and adds that one alone.
pub proof fn lemma_asserted<R: EngineRecord>(records: Seq<R::V>, record: R::V)
    requires
        keyed::<R>(records),
        !holds::<R>(records, R::key_of(record)),
    ensures
        keyed::<R>(asserted::<R>(records, record)),
        asserted::<R>(records, record).len() == records.len() + 1,
        holds::<R>(asserted::<R>(records, record), R::key_of(record)),
        forall|other: R::V| #[trigger]
            asserted::<R>(records, record).contains(other) <==> (records.contains(other) || other
                == record),
{
    let key = R::key_of(record);
    let at = slot::<R>(records, key);
    lemma_slot::<R>(records, key);
    let result = asserted::<R>(records, record);
    assert(result[at] == record);
    assert forall|i: int, j: int| 0 <= i < j < result.len() implies text::text_precedes(
        R::key_of(#[trigger] result[i]),
        R::key_of(#[trigger] result[j]),
    ) by {
        let a = if i < at { i } else { i - 1 };
        let b = if j < at { j } else { j - 1 };
        if i == at {
            assert(R::key_of(records[b]) != key);
            text::lemma_precedes_total(R::key_of(records[b]), key);
        } else if j == at {
            assert(text::text_precedes(R::key_of(records[a]), key));
        } else {
            assert(text::text_precedes(R::key_of(records[a]), R::key_of(records[b])));
        }
    }
    assert forall|other: R::V| #[trigger] result.contains(other) <==> (records.contains(other) || other
        == record) by {
        if result.contains(other) {
            let i = choose|i: int| 0 <= i < result.len() && result[i] == other;
            if i < at {
                assert(records[i] == other);
            } else if i > at {
                assert(records[i - 1] == other);
            }
        }
        if records.contains(other) {
            let i = choose|i: int| 0 <= i < records.len() && records[i] == other;
            if i < at {
                assert(result[i] == other);
            } else {
                assert(result[i + 1] == other);
            }
        }
    }
}

/// Changing a record keeps the table in order, leaves every record under another
/// key, and stores that one under its key.
pub proof fn lemma_mutated<R: EngineRecord>(records: Seq<R::V>, record: R::V)
    requires
        keyed::<R>(records),
        holds::<R>(records, R::key_of(record)),
    ensures
        keyed::<R>(mutated::<R>(records, record)),
        mutated::<R>(records, record).len() == records.len(),
        forall|other: R::V| #[trigger]
            mutated::<R>(records, record).contains(other) <==> (other == record || (records.contains(
                other,
            ) && R::key_of(other) != R::key_of(record))),
{
    let key = R::key_of(record);
    let at = slot::<R>(records, key);
    lemma_slot::<R>(records, key);
    let result = mutated::<R>(records, record);
    assert(result[at] == record);
    assert forall|i: int, j: int| 0 <= i < j < result.len() implies text::text_precedes(
        R::key_of(#[trigger] result[i]),
        R::key_of(#[trigger] result[j]),
    ) by {
        assert(text::text_precedes(R::key_of(records[i]), R::key_of(records[j])));
    }
    assert forall|other: R::V| #[trigger] result.contains(other) <==> (other == record || (
    records.contains(other) && R::key_of(other) != key)) by {
        if result.contains(other) {
            let i = choose|i: int| 0 <= i < result.len() && result[i] == other;
            if i != at {
                assert(records[i] == other);
                lemma_keys_differ::<R>(records, i, at);
            }
        }
        if records.contains(other) && R::key_of(other) != key {
            let i = choose|i: int| 0 <= i < records.len() && records[i] == other;
            assert(result[i] == other);
        }
    }
}

/// Retracting a key keeps the table in order and removes the record under that
/// key alone.
pub proof fn lemma_retracted<R: EngineRecord>(records: Seq<R::V>, key: Seq<char>)
    requires
        keyed::<R>(records),
        holds::<R>(records, key),
    ensures
        keyed::<R>(retracted::<R>(records, key)),
        retracted::<R>(records, key).len() == records.len() - 1,
        !holds::<R>(retracted::<R>(records, key), key),
        forall|other: R::V| #[trigger]
            retracted::<R>(records, key).contains(other) <==> (records.contains(other) && R::key_of(
                other,
            ) != key),
{
    let at = slot::<R>(records, key);
    lemma_slot::<R>(records, key);
    let result = retracted::<R>(records, key);
    assert forall|i: int, j: int| 0 <= i < j < result.len() implies text::text_precedes(
        R::key_of(#[trigger] result[i]),
        R::key_of(#[trigger] result[j]),
    ) by {
        let a = if i < at { i } else { i + 1 };
        let b = if j < at { j } else { j + 1 };
        assert(text::text_precedes(R::key_of(records[a]), R::key_of(records[b])));
    }
    assert forall|i: int| 0 <= i < result.len() implies R::key_of(#[trigger] result[i]) != key by {
        let a = if i < at { i } else { i + 1 };
        assert(result[i] == records[a]);
        lemma_keys_differ::<R>(records, a, at);
    }
    assert forall|other: R::V| #[trigger] result.contains(other) <==> (records.contains(other)
        && R::key_of(other) != key) by {
        if result.contains(other) {
            let i = choose|i: int| 0 <= i < result.len() && result[i] == other;
            let a = if i < at { i } else { i + 1 };
            assert(records[a] == other);
        }
        if records.contains(other) && R::key_of(other) != key {
            let i = choose|i: int| 0 <= i < records.len() && records[i] == other;
            if i < at {
                assert(result[i] == other);
            } else {
                assert(result[i - 1] == other);
            }
        }
    }
}

/// Records at different places have different keys.
pub proof fn lemma_keys_differ<R: EngineRecord>(records: Seq<R::V>, i: int, j: int)
    requires
        keyed::<R>(records),
        0 <= i < records.len(),
        0 <= j < records.len(),
        i != j,
    ensures
        R::key_of(records[i]) != R::key_of(records[j]),
{
    text::lemma_precedes_irreflexive(R::key_of(records[i]));
    if i < j {
        assert(text::text_precedes(R::key_of(records[i]), R::key_of(records[j])));
    } else {
        assert(text::text_precedes(R::key_of(records[j]), R::key_of(records[i])));
    }
}

/// No more are admitted than are offered, and once a record is refused none
/// behind it is admitted.
pub proof fn lemma_admitted<R: EngineRecord>(records: Seq<R::V>, added: Seq<R::V>, count: int)
    requires
        0 <= count <= added.len(),
    ensures
        admitted::<R>(records, added) <= added.len(),
        admitted::<R>(records, added.take(count)) < count ==> admitted::<R>(records, added)
            == admitted::<R>(records, added.take(count)),
    decreases added.len(),
{
    if count == added.len() {
        assert(added.take(count) =~= added);
    }
    if added.len() > 0 {
        let earlier = added.drop_last();
        if count < added.len() {
            lemma_admitted::<R>(records, earlier, count);
            assert(earlier.take(count) =~= added.take(count));
        } else {
            lemma_admitted::<R>(records, earlier, earlier.len() as int);
        }
    }
}

/// The records that are admitted before one is refused are admitted without it too.
pub proof fn lemma_admitted_prefix<R: EngineRecord>(records: Seq<R::V>, added: Seq<R::V>)
    ensures
        ({
            let count = admitted::<R>(records, added);
            &&& count <= added.len()
            &&& admitted::<R>(records, added.take(count as int)) == count
        }),
    decreases added.len(),
{
    let count = admitted::<R>(records, added);
    lemma_admitted::<R>(records, added, added.len() as int);
    if count == added.len() {
        assert(added.take(count as int) =~= added);
    } else {
        lemma_admitted_prefix::<R>(records, added.drop_last());
        assert(added.drop_last().take(count as int) =~= added.take(count as int));
    }
}

/// Adding the records that are admitted keeps the table in order, keeps every
/// record, and adds those alone.
pub proof fn lemma_asserted_all<R: EngineRecord>(records: Seq<R::V>, added: Seq<R::V>)
    requires
        keyed::<R>(records),
        admitted::<R>(records, added) == added.len(),
    ensures
        keyed::<R>(asserted_all::<R>(records, added)),
        asserted_all::<R>(records, added).len() == records.len() + added.len(),
        forall|other: R::V| #[trigger]
            asserted_all::<R>(records, added).contains(other) <==> (records.contains(other)
                || added.contains(other)),
    decreases added.len(),
{
    if added.len() > 0 {
        let earlier = added.drop_last();
        let last = added.last();
        lemma_admitted::<R>(records, earlier, earlier.len() as int);
        lemma_asserted_all::<R>(records, earlier);
        lemma_asserted::<R>(asserted_all::<R>(records, earlier), last);
        assert forall|other: R::V| #[trigger]
            asserted_all::<R>(records, added).contains(other) <==> (records.contains(other)
                || added.contains(other)) by {
            assert(asserted_all::<R>(records, earlier).contains(other) <==> (records.contains(other)
                || earlier.contains(other)));
            if earlier.contains(other) {
                let i = choose|i: int| 0 <= i < earlier.len() && earlier[i] == other;
                assert(added[i] == other);
            }
            if added.contains(other) {
                let i = choose|i: int| 0 <= i < added.len() && added[i] == other;
                if i < earlier.len() {
                    assert(earlier[i] == other);
                }
            }
            assert(added[added.len() - 1] == last);
        }
    }
}

/// Records that are all admitted have keys that differ, from each other and from
/// those of the records that are there.
pub proof fn lemma_admitted_distinct<R: EngineRecord>(records: Seq<R::V>, added: Seq<R::V>)
    requires
        keyed::<R>(records),
        admitted::<R>(records, added) == added.len(),
    ensures
        forall|i: int, j: int|
            0 <= i < j < added.len() ==> R::key_of(#[trigger] added[i]) != R::key_of(
                #[trigger] added[j],
            ),
        forall|i: int, j: int|
            0 <= i < records.len() && 0 <= j < added.len() ==> R::key_of(#[trigger] records[i])
                != R::key_of(#[trigger] added[j]),
    decreases added.len(),
{
    if added.len() > 0 {
        let earlier = added.drop_last();
        let last = added.last();
        let stored = asserted_all::<R>(records, earlier);
        lemma_admitted::<R>(records, earlier, earlier.len() as int);
        lemma_admitted_distinct::<R>(records, earlier);
        lemma_asserted_all::<R>(records, earlier);
        assert(!holds::<R>(stored, R::key_of(last)));
        assert forall|record: R::V|
            (records.contains(record) || earlier.contains(record)) implies #[trigger] R::key_of(
            record,
        ) != R::key_of(last) by {
            assert(stored.contains(record));
            let k = choose|k: int| 0 <= k < stored.len() && stored[k] == record;
            assert(R::key_of(stored[k]) != R::key_of(last));
        }
        assert forall|i: int, j: int| 0 <= i < j < added.len() implies R::key_of(
            #[trigger] added[i],
        ) != R::key_of(#[trigger] added[j]) by {
            assert(added[i] == earlier[i]);
            assert(earlier.contains(earlier[i]));
            if j < earlier.len() {
                assert(added[j] == earlier[j]);
            }
        }
        assert forall|i: int, j: int|
            0 <= i < records.len() && 0 <= j < added.len() implies R::key_of(#[trigger] records[i])
            != R::key_of(#[trigger] added[j]) by {
            assert(records.contains(records[i]));
            if j < earlier.len() {
                assert(added[j] == earlier[j]);
            }
        }
    }
}

/// A record is refused because a record is there under its key: one of the table,
/// or one that was admitted before it.
pub proof fn lemma_refused<R: EngineRecord>(records: Seq<R::V>, added: Seq<R::V>)
    requires
        admitted::<R>(records, added) < added.len(),
    ensures
        ({
            let count = admitted::<R>(records, added) as int;
            let stored = asserted_all::<R>(records, added.take(count));
            exists|k: int|
                0 <= k < stored.len() && R::key_of(#[trigger] stored[k]) == R::key_of(added[count])
        }),
    decreases added.len(),
{
    let count = admitted::<R>(records, added) as int;
    let earlier = added.drop_last();
    if admitted::<R>(records, earlier) < earlier.len() {
        lemma_refused::<R>(records, earlier);
        assert(earlier.take(count) =~= added.take(count));
        assert(earlier[count] == added[count]);
    } else {
        lemma_admitted::<R>(records, earlier, earlier.len() as int);
        assert(added.take(count) =~= earlier);
    }
}

/// Records whose keys differ, from each other and from those of the records that
/// are there, are all admitted.
pub proof fn lemma_distinct_admitted<R: EngineRecord>(records: Seq<R::V>, added: Seq<R::V>)
    requires
        keyed::<R>(records),
        forall|i: int, j: int|
            0 <= i < j < added.len() ==> R::key_of(#[trigger] added[i]) != R::key_of(
                #[trigger] added[j],
            ),
        forall|i: int, j: int|
            0 <= i < records.len() && 0 <= j < added.len() ==> R::key_of(#[trigger] records[i])
                != R::key_of(#[trigger] added[j]),
    ensures
        admitted::<R>(records, added) == added.len(),
    decreases added.len(),
{
    if added.len() > 0 {
        let earlier = added.drop_last();
        let last = added[added.len() - 1];
        assert forall|i: int, j: int| 0 <= i < j < earlier.len() implies R::key_of(
            #[trigger] earlier[i],
        ) != R::key_of(#[trigger] earlier[j]) by {
            assert(earlier[i] == added[i] && earlier[j] == added[j]);
        }
        assert forall|i: int, j: int|
            0 <= i < records.len() && 0 <= j < earlier.len() implies R::key_of(
            #[trigger] records[i],
        ) != R::key_of(#[trigger] earlier[j]) by {
            assert(earlier[j] == added[j]);
        }
        lemma_distinct_admitted::<R>(records, earlier);
        lemma_asserted_all::<R>(records, earlier);
        let stored = asserted_all::<R>(records, earlier);
        assert forall|k: int| 0 <= k < stored.len() implies R::key_of(#[trigger] stored[k])
            != R::key_of(last) by {
            assert(stored.contains(stored[k]));
            if records.contains(stored[k]) {
                let i = choose|i: int| 0 <= i < records.len() && records[i] == stored[k];
                assert(R::key_of(records[i]) != R::key_of(last));
            } else {
                let i = choose|i: int| 0 <= i < earlier.len() && earlier[i] == stored[k];
                assert(added[i] == stored[k]);
            }
        }
    }
}

proof fn lemma_insert_permutes<T>(items: Seq<T>, at: int, item: T)
    requires
        0 <= at <= items.len(),
    ensures
        items.insert(at, item).to_multiset() == items.to_multiset().insert(item),
{
    let all = items.insert(at, item);
    all.to_multiset_ensures();
    assert(all.remove(at) =~= items);
    assert(all[at] == item);
    assert(all.contains(item));
    assert(items.to_multiset() =~= all.to_multiset().remove(item));
    assert(all.to_multiset() =~= items.to_multiset().insert(item));
}

/// Adding records that are all admitted keeps each record as often as it was there,
/// and adds each as often as it is added.
pub proof fn lemma_asserted_permutes<R: EngineRecord>(records: Seq<R::V>, added: Seq<R::V>)
    requires
        keyed::<R>(records),
        admitted::<R>(records, added) == added.len(),
    ensures
        asserted_all::<R>(records, added).to_multiset() == (records + added).to_multiset(),
    decreases added.len(),
{
    if added.len() > 0 {
        let earlier = added.drop_last();
        let before = asserted_all::<R>(records, earlier);
        lemma_admitted::<R>(records, earlier, earlier.len() as int);
        lemma_asserted_permutes::<R>(records, earlier);
        lemma_asserted_all::<R>(records, earlier);
        lemma_slot::<R>(before, R::key_of(added.last()));
        lemma_insert_permutes(before, slot::<R>(before, R::key_of(added.last())), added.last());
        (records + earlier).to_multiset_ensures();
        assert(records + added =~= (records + earlier).push(added.last()));
    } else {
        assert(records + added =~= records);
    }
}

/// A record whose key comes behind every key is added at the end.
pub proof fn lemma_asserted_last<R: EngineRecord>(records: Seq<R::V>, record: R::V)
    requires
        forall|i: int|
            0 <= i < records.len() ==> text::text_precedes(
                R::key_of(#[trigger] records[i]),
                R::key_of(record),
            ),
    ensures
        !holds::<R>(records, R::key_of(record)),
        asserted::<R>(records, record) == records.push(record),
{
    text::lemma_precedes_irreflexive(R::key_of(record));
    lemma_slot_at::<R>(records, R::key_of(record), records.len() as int);
    assert(asserted::<R>(records, record) =~= records.push(record));
}

/// Records that stand in the order of their keys, no key twice, are all admitted
/// to an empty table, and stay in that order.
pub proof fn lemma_loaded<R: EngineRecord>(records: Seq<R::V>)
    requires
        keyed::<R>(records),
    ensures
        admitted::<R>(Seq::empty(), records) == records.len(),
        asserted_all::<R>(Seq::empty(), records) == records,
    decreases records.len(),
{
    if records.len() > 0 {
        let earlier = records.drop_last();
        lemma_loaded::<R>(earlier);
        lemma_asserted_last::<R>(earlier, records.last());
        assert(earlier.push(records.last()) =~= records);
    }
}

/// Retracting the first record leaves the rest.
pub proof fn lemma_retracted_first<R: EngineRecord>(records: Seq<R::V>)
    requires
        keyed::<R>(records),
        records.len() > 0,
    ensures
        holds::<R>(records, R::key_of(records[0])),
        retracted::<R>(records, R::key_of(records[0])) == records.skip(1),
        keyed::<R>(records.skip(1)),
{
    let key = R::key_of(records[0]);
    assert forall|i: int| 0 <= i < records.len() implies !text::text_precedes(
        R::key_of(#[trigger] records[i]),
        key,
    ) by {
        text::lemma_precedes_irreflexive(key);
        if i > 0 && text::text_precedes(R::key_of(records[i]), key) {
            assert(text::text_precedes(key, R::key_of(records[i])));
            text::lemma_precedes_transitive(key, R::key_of(records[i]), key);
        }
    }
    lemma_slot_at::<R>(records, key, 0);
    assert(retracted::<R>(records, key) =~= records.skip(1));
    lemma_retracted::<R>(records, key);
}

/// Records kept under distinct keys, in the order of their keys.
#[derive(Debug, PartialEq, Eq)]
#[verifier::reject_recursive_types(R)]
pub struct Table<R: EngineRecord> {
    keys: Vec<RecordKey>,
    records: Vec<R>,
}

impl<R: EngineRecord> View for Table<R> {
    type V = Seq<R::V>;

    closed spec fn view(&self) -> Seq<R::V> {
        model::models(self.records@)
    }
}

impl<R: EngineRecord> Table<R> {
    /// Whether the kept keys are those of the records, and the records stand in
    /// the order of their keys.
    pub closed spec fn well_formed(&self) -> bool {
        &&& self.keys@.len() == self.records@.len()
        &&& forall|i: int|
            0 <= i < self.keys@.len() ==> #[trigger] self.keys@[i]@ == R::key_of(self.records@[i]@)
        &&& keyed::<R>(self@)
    }

    /// A table holds no more records than can be counted.
    pub proof fn lemma_bounded(&self)
        ensures
            self@.len() <= usize::MAX,
    {
        assert(self.records.len() == self.records@.len());
    }

    /// A well-formed table has its records in the order of their keys.
    pub proof fn lemma_keyed(&self)
        requires
            self.well_formed(),
        ensures
            keyed::<R>(self@),
    {
    }

    /// The table without records.
    pub fn new() -> (table: Self)
        ensures
            table.well_formed(),
            table@ == Seq::<R::V>::empty(),
    {
        let table = Self { keys: Vec::new(), records: Vec::new() };
        assert(table@ =~= Seq::<R::V>::empty());
        table
    }

    /// The records, in the order of their keys.
    pub fn records(&self) -> (records: &Vec<R>)
        ensures
            model::models(records@) == self@,
    {
        &self.records
    }

    /// Where the record with `key` stands or would stand, and whether it is there.
    fn find(&self, key: &RecordKey) -> (found: (usize, bool))
        requires
            self.well_formed(),
        ensures
            found.0 == slot::<R>(self@, key@),
            found.0 <= self@.len(),
            found.1 == holds::<R>(self@, key@),
            found.1 ==> found.0 < self@.len(),
            self@.len() == self.records@.len(),
    {
        let mut low: usize = 0;
        let mut high: usize = self.keys.len();
        while low < high
            invariant
                self.well_formed(),
                low <= high <= self.keys@.len(),
                self@.len() == self.keys@.len(),
                forall|i: int|
                    0 <= i < low ==> text::text_precedes(R::key_of(#[trigger] self@[i]), key@),
                forall|i: int|
                    high <= i < self@.len() ==> !text::text_precedes(
                        R::key_of(#[trigger] self@[i]),
                        key@,
                    ),
            decreases high - low,
        {
            let middle: usize = low + (high - low) / 2;
            let before = self.keys[middle].precedes(key);
            assert(self.keys@[middle as int]@ == R::key_of(self@[middle as int]));
            if before {
                proof {
                    assert forall|i: int| 0 <= i < middle + 1 implies text::text_precedes(
                        R::key_of(#[trigger] self@[i]),
                        key@,
                    ) by {
                        if i < middle {
                            text::lemma_precedes_transitive(
                                R::key_of(self@[i]),
                                R::key_of(self@[middle as int]),
                                key@,
                            );
                        }
                    }
                }
                low = middle + 1;
            } else {
                proof {
                    assert forall|i: int| middle <= i < self@.len() implies !text::text_precedes(
                        R::key_of(#[trigger] self@[i]),
                        key@,
                    ) by {
                        if i > middle && text::text_precedes(R::key_of(self@[i]), key@) {
                            text::lemma_precedes_transitive(
                                R::key_of(self@[middle as int]),
                                R::key_of(self@[i]),
                                key@,
                            );
                        }
                    }
                }
                high = middle;
            }
        }
        proof {
            lemma_slot_at::<R>(self@, key@, low as int);
            lemma_slot::<R>(self@, key@);
        }
        let present = low < self.keys.len() && self.keys[low].same(key);
        assert(low < self.keys@.len() ==> self.keys@[low as int]@ == R::key_of(self@[low as int]));
        (low, present)
    }

    /// Adds a record under a key that is not taken.
    pub fn assert_record(&mut self, record: R) -> (result: Result<(), EngineError>)
        requires
            old(self).well_formed(),
        ensures
            final(self).well_formed(),
            match result {
                Ok(()) => !holds::<R>(old(self)@, R::key_of(record@)) && final(self)@ == asserted::<R>(
                    old(self)@,
                    record@,
                ),
                Err(error) => holds::<R>(old(self)@, R::key_of(record@)) && final(self)@ == old(self)@
                    && (error matches EngineError::RecordExists { key } && key@ == R::key_of(record@)),
            },
    {
        let key = record.record_key();
        let (at, present) = self.find(&key);
        if present {
            return Err(EngineError::RecordExists { key });
        }
        proof {
            lemma_asserted::<R>(self@, record@);
        }
        let ghost before = *self;
        let ghost added = record@;
        self.keys.insert(at, key);
        self.records.insert(at, record);
        proof {
            assert(self@ =~= asserted::<R>(before@, added));
            assert forall|i: int| 0 <= i < self.keys@.len() implies #[trigger] self.keys@[i]@
                == R::key_of(self.records@[i]@) by {
                if i < at {
                    assert(self.keys@[i] == before.keys@[i]);
                } else if i > at {
                    assert(self.keys@[i] == before.keys@[i - 1]);
                }
            }
        }
        Ok(())
    }

    /// Replaces the record under the key of `record`.
    pub fn mutate_record(&mut self, record: R) -> (result: Result<(), EngineError>)
        requires
            old(self).well_formed(),
        ensures
            final(self).well_formed(),
            match result {
                Ok(()) => holds::<R>(old(self)@, R::key_of(record@)) && final(self)@ == mutated::<R>(
                    old(self)@,
                    record@,
                ),
                Err(error) => !holds::<R>(old(self)@, R::key_of(record@)) && final(self)@ == old(
                    self,
                )@ && (error matches EngineError::RecordNotFound { key } && key@ == R::key_of(
                    record@,
                )),
            },
    {
        let key = record.record_key();
        let (at, present) = self.find(&key);
        if !present {
            return Err(EngineError::RecordNotFound { key });
        }
        proof {
            lemma_mutated::<R>(self@, record@);
            lemma_slot::<R>(self@, key@);
        }
        let ghost before = *self;
        let ghost changed = record@;
        self.records.set(at, record);
        proof {
            assert(self@ =~= mutated::<R>(before@, changed));
            assert forall|i: int| 0 <= i < self.keys@.len() implies #[trigger] self.keys@[i]@
                == R::key_of(self.records@[i]@) by {
                assert(self.keys@[i] == before.keys@[i]);
            }
        }
        Ok(())
    }

    /// Removes the record under `key`.
    pub fn retract_record(&mut self, key: RecordKey) -> (result: Result<(), EngineError>)
        requires
            old(self).well_formed(),
        ensures
            final(self).well_formed(),
            match result {
                Ok(()) => holds::<R>(old(self)@, key@) && final(self)@ == retracted::<R>(
                    old(self)@,
                    key@,
                ),
                Err(error) => !holds::<R>(old(self)@, key@) && final(self)@ == old(self)@ && (
                error matches EngineError::RecordNotFound { key: missing } && missing@ == key@),
            },
    {
        let (at, present) = self.find(&key);
        if !present {
            return Err(EngineError::RecordNotFound { key });
        }
        proof {
            lemma_retracted::<R>(self@, key@);
        }
        let ghost before = *self;
        let _removed_key = self.keys.remove(at);
        let _removed_record = self.records.remove(at);
        proof {
            assert(self@ =~= retracted::<R>(before@, key@));
            assert forall|i: int| 0 <= i < self.keys@.len() implies #[trigger] self.keys@[i]@
                == R::key_of(self.records@[i]@) by {
                if i < at {
                    assert(self.keys@[i] == before.keys@[i]);
                } else {
                    assert(self.keys@[i] == before.keys@[i + 1]);
                }
            }
        }
        Ok(())
    }

    /// A table of the given records, which must have distinct keys.
    pub fn load(records: Vec<R>) -> (result: Result<Self, EngineError>)
        ensures
            match result {
                Ok(table) => {
                    &&& admitted::<R>(Seq::empty(), model::models(records@)) == records@.len()
                    &&& table.well_formed()
                    &&& table@ == asserted_all::<R>(Seq::empty(), model::models(records@))
                },
                Err(error) => {
                    let refused = admitted::<R>(Seq::empty(), model::models(records@));
                    &&& refused < records@.len()
                    &&& error matches EngineError::RecordExists { key }
                    &&& key@ == R::key_of(records@[refused as int]@)
                },
            },
    {
        let ghost all = model::models(records@);
        let mut table = Self::new();
        for record in it: records
            invariant
                all == model::models(it.seq()),
                table.well_formed(),
                admitted::<R>(Seq::empty(), all.take(it.index())) == it.index(),
                table@ == asserted_all::<R>(Seq::empty(), all.take(it.index())),
        {
            let ghost count = it.index();
            proof {
                assert(record == it.seq()[count]);
                assert(all.take(count + 1).drop_last() =~= all.take(count));
                assert(all.take(count + 1).last() == record@);
            }
            match table.assert_record(record) {
                Ok(()) => {},
                Err(error) => {
                    proof {
                        lemma_admitted::<R>(Seq::empty(), all, count + 1);
                    }
                    return Err(error);
                },
            }
        }
        assert(all.take(all.len() as int) =~= all);
        Ok(table)
    }

    /// Takes out the first `count` records.
    pub fn take_first(&mut self, count: usize) -> (taken: Vec<R>)
        requires
            old(self).well_formed(),
            count <= old(self)@.len(),
        ensures
            final(self).well_formed(),
            final(self)@ == old(self)@.skip(count as int),
            model::models(taken@) == old(self)@.take(count as int),
    {
        let ghost before = *self;
        let mut keys = self.keys.split_off(count);
        let mut records = self.records.split_off(count);
        core::mem::swap(&mut self.keys, &mut keys);
        core::mem::swap(&mut self.records, &mut records);
        proof {
            assert(self@ =~= before@.skip(count as int));
            assert forall|i: int| 0 <= i < self.keys@.len() implies #[trigger] self.keys@[i]@
                == R::key_of(self.records@[i]@) by {
                assert(self.keys@[i] == before.keys@[i + count]);
            }
            assert forall|i: int, j: int| 0 <= i < j < self@.len() implies text::text_precedes(
                R::key_of(#[trigger] self@[i]),
                R::key_of(#[trigger] self@[j]),
            ) by {
                assert(text::text_precedes(
                    R::key_of(before@[i + count]),
                    R::key_of(before@[j + count]),
                ));
            }
            assert(model::models(records@) =~= before@.take(count as int));
        }
        records
    }
}

} // verus!
