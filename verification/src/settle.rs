//! What a pass leaves behind. The engine only says which contacts to add,
//! change and remove; this module says what an observer's contact book looks
//! like once those deltas have been applied in order, and proves what then
//! holds of the book and of the next pass.

use vstd::prelude::*;
use crate::address::{dotted, lemma_replaced_absent};
use crate::keyed::{
    distinct_keys, erased, key_is, lemma_erased, lemma_written, position_of, written,
};
use crate::components::ContactView;
use crate::contacts::{is_about, knows, slot_of, BookView, ContactBook};
use crate::radar::{
    contact_for, despawned, pass_deltas, verdict, verdict_of, DeltaView, RadarContactDelta,
    SightingView,
};
use crate::search::{first_where, lemma_first_where, lemma_first_where_none};

verus! {

/// Whether `slot` holds exactly the record `rec`.
pub open spec fn holds(book: BookView, slot: Seq<char>, rec: ContactView) -> bool {
    book.contains((slot, rec))
}

/// The book after one delta. A new contact goes into `new_slot`, the slot
/// that the protocol layer assigns to it; a removal empties the slot it
/// names; a change replaces what the slot it names holds.
pub open spec fn applied(book: BookView, delta: DeltaView, new_slot: Seq<char>) -> BookView {
    match delta {
        DeltaView::Add(c) => written(book, new_slot, c),
        DeltaView::Remove(slot) => erased(book, slot),
        DeltaView::Change(slot, c) => written(book, slot, c),
    }
}

/// The book after a run of deltas, applied in the order in which they were
/// emitted. `new_slots[i]` is the slot assigned to the `i`-th delta if that
/// delta is an addition.
pub open spec fn applied_all(book: BookView, deltas: Seq<DeltaView>, new_slots: Seq<Seq<char>>) -> BookView
    decreases deltas.len(),
{
    if deltas.len() == 0 {
        book
    } else {
        applied(
            applied_all(book, deltas.drop_last(), new_slots),
            deltas.last(),
            new_slots[deltas.len() - 1],
        )
    }
}

/// Whether no two records are about the same entity.
pub open spec fn one_record_each(book: BookView) -> bool {
    forall|i: int, j: int|
        0 <= i < j < book.len() ==> (#[trigger] book[i]).1.entity_id != (#[trigger] book[j]).1.entity_id
}

/// Whether every slot id is spelled the way the bus spells it, without a
/// colon. Deltas name slots in that spelling.
pub open spec fn bus_spelled(book: BookView) -> bool {
    forall|i: int| 0 <= i < book.len() ==> !(#[trigger] book[i]).0.contains(':')
}

/// Whether a sighted entity is in contact after the pass: it is in range,
/// and it has a transponder or was not in contact before (the engine asks
/// for the transponder only of entities it already has in contact).
pub open spec fn stays(book: BookView, s: SightingView) -> bool {
    s.within_radius && (s.transponder_present || !knows(book, s.entity_id))
}

/// After a write, a slot holds a record exactly if it is the written one, or
/// it is another slot that held the record before.
pub proof fn lemma_written_holds(
    book: BookView,
    key: Seq<char>,
    value: ContactView,
    slot: Seq<char>,
    rec: ContactView,
)
    requires
        distinct_keys(book),
    ensures
        distinct_keys(written(book, key, value)),
        holds(written(book, key, value), slot, rec) <==> (slot == key && rec == value) || (slot
            != key && holds(book, slot, rec)),
{
    let w = written(book, key, value);
    lemma_written(book, key, value, key);
    lemma_first_where(book, key_is::<ContactView>(key));
    match position_of(book, key) {
        Some(i) => {
            assert(w == book.update(i, (key, value)));
            if holds(w, slot, rec) {
                let j = choose|j: int| 0 <= j < w.len() && w[j] == (slot, rec);
                if j != i {
                    assert(book[j] == (slot, rec));
                    assert(book[i].0 == key);
                    assert(slot != key) by {
                        if j < i {
                            assert(book[j].0 != book[i].0);
                        } else {
                            assert(book[i].0 != book[j].0);
                        }
                    }
                }
            }
            if slot == key && rec == value {
                assert(w[i] == (slot, rec));
            }
            if slot != key && holds(book, slot, rec) {
                let j = choose|j: int| 0 <= j < book.len() && book[j] == (slot, rec);
                assert(j != i);
                assert(w[j] == (slot, rec));
            }
        },
        None => {
            assert(w == book.push((key, value)));
            if holds(w, slot, rec) {
                let j = choose|j: int| 0 <= j < w.len() && w[j] == (slot, rec);
                if j < book.len() {
                    assert(book[j] == (slot, rec));
                    assert(!key_is::<ContactView>(key)(book[j]));
                }
            }
            if slot == key && rec == value {
                assert(w[book.len() as int] == (slot, rec));
            }
            if slot != key && holds(book, slot, rec) {
                let j = choose|j: int| 0 <= j < book.len() && book[j] == (slot, rec);
                assert(w[j] == (slot, rec));
            }
        },
    }
}

/// After an erasure, a slot holds a record exactly if it is another slot
/// that held the record before.
pub proof fn lemma_erased_holds(book: BookView, key: Seq<char>, slot: Seq<char>, rec: ContactView)
    requires
        distinct_keys(book),
    ensures
        distinct_keys(erased(book, key)),
        holds(erased(book, key), slot, rec) <==> slot != key && holds(book, slot, rec),
{
    let e = erased(book, key);
    lemma_erased(book, key, key);
    lemma_first_where(book, key_is::<ContactView>(key));
    match position_of(book, key) {
        Some(i) => {
            assert(e == book.remove(i));
            if holds(e, slot, rec) {
                let j = choose|j: int| 0 <= j < e.len() && e[j] == (slot, rec);
                let j0 = if j < i { j } else { j + 1 };
                assert(book[j0] == (slot, rec));
                assert(book[i].0 == key);
                assert(slot != key) by {
                    if j0 < i {
                        assert(book[j0].0 != book[i].0);
                    } else {
                        assert(book[i].0 != book[j0].0);
                    }
                }
            }
            if slot != key && holds(book, slot, rec) {
                let j = choose|j: int| 0 <= j < book.len() && book[j] == (slot, rec);
                assert(j != i);
                let j1 = if j < i { j } else { j - 1 };
                assert(e[j1] == (slot, rec));
            }
        },
        None => {
            if holds(book, slot, rec) {
                let j = choose|j: int| 0 <= j < book.len() && book[j] == (slot, rec);
                assert(!key_is::<ContactView>(key)(book[j]));
            }
        },
    }
}

/// An entity is known exactly if some slot holds a record about it, and the
/// slot found for a known entity holds such a record.
pub proof fn lemma_knows(book: BookView, entity: Seq<char>)
    ensures
        knows(book, entity) <==> exists|slot: Seq<char>, rec: ContactView|
            #[trigger] holds(book, slot, rec) && rec.entity_id == entity,
        knows(book, entity) ==> exists|rec: ContactView|
            #[trigger] holds(book, slot_of(book, entity)->0, rec) && rec.entity_id == entity,
{
    lemma_first_where(book, is_about(entity));
    match first_where(book, is_about(entity)) {
        Some(i) => {
            assert(book[i] == (book[i].0, book[i].1));
            assert(holds(book, book[i].0, book[i].1));
            assert(slot_of(book, entity) == Some(book[i].0));
            assert(holds(book, slot_of(book, entity)->0, book[i].1));
        },
        None => {
            if exists|slot: Seq<char>, rec: ContactView|
                #[trigger] holds(book, slot, rec) && rec.entity_id == entity {
                let (slot, rec) = choose|slot: Seq<char>, rec: ContactView|
                    #[trigger] holds(book, slot, rec) && rec.entity_id == entity;
                let j = choose|j: int| 0 <= j < book.len() && book[j] == (slot, rec);
                assert(!is_about(entity)(book[j]));
            }
        },
    }
}

/// Whether `slot` holds some record.
pub open spec fn occupied(book: BookView, slot: Seq<char>) -> bool {
    exists|rec: ContactView| holds(book, slot, rec)
}

/// Whether some slot holds exactly the record `rec`.
pub open spec fn recorded(book: BookView, rec: ContactView) -> bool {
    exists|slot: Seq<char>| holds(book, slot, rec)
}

/// Whether `slot` is among the first `n` of `slots`.
pub open spec fn used(slots: Seq<Seq<char>>, n: int, slot: Seq<char>) -> bool {
    exists|j: int| 0 <= j < n && (#[trigger] slots[j]) == slot
}

/// `one_record_each`, said of slots and records instead of positions.
pub open spec fn single(book: BookView) -> bool {
    forall|s1: Seq<char>, s2: Seq<char>, r1: ContactView, r2: ContactView|
        #[trigger] holds(book, s1, r1) && #[trigger] holds(book, s2, r2) && r1.entity_id
            == r2.entity_id ==> s1 == s2
}

/// Whether no two sightings are of the same entity, as in a snapshot of the
/// position cache.
pub open spec fn distinct_ids(sightings: Seq<SightingView>) -> bool {
    forall|i: int, j: int|
        0 <= i < j < sightings.len() ==> (#[trigger] sightings[i]).entity_id != (
        #[trigger] sightings[j]).entity_id
}

/// Whether one of the first `k` sightings is of `entity`, and `entity` is
/// not the observer.
pub open spec fn sighted_before(
    observer: Seq<char>,
    sightings: Seq<SightingView>,
    k: int,
    entity: Seq<char>,
) -> bool {
    entity != observer && exists|i: int| 0 <= i < k && (#[trigger] sightings[i]).entity_id == entity
}

/// What a pass may start from: a book with distinct slots in bus spelling and
/// one record per entity, sightings of distinct entities, and enough slots
/// for the additions, all of them vacant and distinct.
pub open spec fn pass_inputs(
    book: BookView,
    sightings: Seq<SightingView>,
    new_slots: Seq<Seq<char>>,
) -> bool {
    &&& distinct_keys(book)
    &&& one_record_each(book)
    &&& bus_spelled(book)
    &&& distinct_ids(sightings)
    &&& new_slots.len() >= sightings.len()
    &&& forall|j: int| 0 <= j < new_slots.len() ==> !occupied(book, #[trigger] new_slots[j])
    &&& forall|a: int, b: int|
        0 <= a < b < new_slots.len() ==> (#[trigger] new_slots[a]) != (#[trigger] new_slots[b])
}

/// What holds of the book `now` after the deltas of the first `k` sightings,
/// `emitted` in number, have been applied to `book`.
pub open spec fn settled_so_far(
    observer: Seq<char>,
    shard: Seq<char>,
    book: BookView,
    sightings: Seq<SightingView>,
    new_slots: Seq<Seq<char>>,
    k: int,
    now: BookView,
    emitted: int,
) -> bool {
    &&& 0 <= emitted <= k
    &&& distinct_keys(now)
    &&& single(now)
    &&& forall|slot: Seq<char>| #[trigger]
        occupied(now, slot) ==> occupied(book, slot) || used(new_slots, emitted, slot)
    &&& forall|slot: Seq<char>, rec: ContactView|
        #![trigger holds(now, slot, rec)]
        #![trigger holds(book, slot, rec)]
        !sighted_before(observer, sightings, k, rec.entity_id) ==> (holds(now, slot, rec)
            <==> holds(book, slot, rec))
    &&& forall|i: int, slot: Seq<char>, rec: ContactView|
        #![trigger holds(now, slot, rec), sightings[i]]
        0 <= i < k && sightings[i].entity_id != observer && rec.entity_id
            == sightings[i].entity_id && holds(now, slot, rec) ==> stays(book, sightings[i])
            && rec == contact_for(shard, sightings[i])
    &&& forall|i: int|
        0 <= i < k && (#[trigger] sightings[i]).entity_id != observer && stays(
            book,
            sightings[i],
        ) ==> recorded(now, contact_for(shard, sightings[i]))
}

/// A book with distinct slots and one record per entity is `single`.
pub proof fn lemma_single(book: BookView)
    requires
        distinct_keys(book),
        one_record_each(book),
    ensures
        single(book),
{
    assert forall|s1: Seq<char>, s2: Seq<char>, r1: ContactView, r2: ContactView|
        #[trigger] holds(book, s1, r1) && #[trigger] holds(book, s2, r2) && r1.entity_id
            == r2.entity_id implies s1 == s2 by {
        let i = choose|i: int| 0 <= i < book.len() && book[i] == (s1, r1);
        let j = choose|j: int| 0 <= j < book.len() && book[j] == (s2, r2);
        if i < j {
            assert(book[i].1.entity_id != book[j].1.entity_id);
        } else if j < i {
            assert(book[j].1.entity_id != book[i].1.entity_id);
        }
    }
}

/// A `single` book has one record per entity.
pub proof fn lemma_one_record_each(book: BookView)
    requires
        single(book),
        distinct_keys(book),
    ensures
        one_record_each(book),
{
    assert forall|i: int, j: int| 0 <= i < j < book.len() implies (#[trigger] book[i]).1.entity_id
        != (#[trigger] book[j]).1.entity_id by {
        assert(book[i] == (book[i].0, book[i].1));
        assert(book[j] == (book[j].0, book[j].1));
        assert(holds(book, book[i].0, book[i].1));
        assert(holds(book, book[j].0, book[j].1));
        assert(book[i].0 != book[j].0);
    }
}

/// A slot holds at most one record.
pub proof fn lemma_functional(book: BookView, slot: Seq<char>, r1: ContactView, r2: ContactView)
    requires
        distinct_keys(book),
        holds(book, slot, r1),
        holds(book, slot, r2),
    ensures
        r1 == r2,
{
    let i = choose|i: int| 0 <= i < book.len() && book[i] == (slot, r1);
    let j = choose|j: int| 0 <= j < book.len() && book[j] == (slot, r2);
    if i < j {
        assert(book[i].0 != book[j].0);
    } else if j < i {
        assert(book[j].0 != book[i].0);
    }
}

/// What is known of the `k`-th sighting before its verdict is applied: its
/// entity was not sighted earlier, and whatever the book holds about it now
/// it held from the start.
spec fn untouched_yet(
    observer: Seq<char>,
    book: BookView,
    sightings: Seq<SightingView>,
    k: int,
    now: BookView,
) -> bool {
    let x = sightings[k].entity_id;
    &&& forall|e: Seq<char>| #[trigger]
        sighted_before(observer, sightings, k + 1, e) <==> sighted_before(
            observer,
            sightings,
            k,
            e,
        ) || (e == x && x != observer)
    &&& forall|i: int| 0 <= i < k ==> (#[trigger] sightings[i]).entity_id != x
    &&& forall|slot: Seq<char>, rec: ContactView|
        rec.entity_id == x && #[trigger] holds(now, slot, rec) ==> holds(book, slot, rec)
    &&& forall|slot: Seq<char>, rec: ContactView|
        rec.entity_id == x && #[trigger] holds(book, slot, rec) ==> holds(now, slot, rec)
}

proof fn lemma_untouched_yet(
    observer: Seq<char>,
    shard: Seq<char>,
    book: BookView,
    sightings: Seq<SightingView>,
    new_slots: Seq<Seq<char>>,
    k: int,
    now: BookView,
    emitted: int,
)
    requires
        pass_inputs(book, sightings, new_slots),
        0 <= k < sightings.len(),
        settled_so_far(observer, shard, book, sightings, new_slots, k, now, emitted),
    ensures
        untouched_yet(observer, book, sightings, k, now),
{
    let x = sightings[k].entity_id;
    assert(!sighted_before(observer, sightings, k, x)) by {
        if sighted_before(observer, sightings, k, x) {
            let i = choose|i: int| 0 <= i < k && (#[trigger] sightings[i]).entity_id == x;
            assert(sightings[i].entity_id != sightings[k].entity_id);
        }
    }
    assert forall|e: Seq<char>| #[trigger]
        sighted_before(observer, sightings, k + 1, e) <==> sighted_before(
            observer,
            sightings,
            k,
            e,
        ) || (e == x && x != observer) by {
        if sighted_before(observer, sightings, k + 1, e) {
            let i = choose|i: int| 0 <= i < k + 1 && (#[trigger] sightings[i]).entity_id == e;
            if i < k {
                assert(sighted_before(observer, sightings, k, e));
            }
        }
        if sighted_before(observer, sightings, k, e) {
            let i = choose|i: int| 0 <= i < k && (#[trigger] sightings[i]).entity_id == e;
            assert(0 <= i < k + 1 && sightings[i].entity_id == e);
        }
        if e == x && x != observer {
            assert(0 <= k < k + 1 && sightings[k].entity_id == e);
        }
    }
    assert forall|i: int| 0 <= i < k implies (#[trigger] sightings[i]).entity_id != x by {
        assert(sightings[i].entity_id != sightings[k].entity_id);
    }
    assert forall|slot: Seq<char>, rec: ContactView|
        rec.entity_id == x && #[trigger] holds(now, slot, rec) implies holds(book, slot, rec) by {
        assert(!sighted_before(observer, sightings, k, rec.entity_id));
    }
    assert forall|slot: Seq<char>, rec: ContactView|
        rec.entity_id == x && #[trigger] holds(book, slot, rec) implies holds(now, slot, rec) by {
        assert(!sighted_before(observer, sightings, k, rec.entity_id));
    }
}

/// A sighting without a verdict leaves the invariant in place.
#[verifier::rlimit(40)]
#[verifier::spinoff_prover]
proof fn lemma_step_nothing(
    observer: Seq<char>,
    shard: Seq<char>,
    book: BookView,
    sightings: Seq<SightingView>,
    new_slots: Seq<Seq<char>>,
    k: int,
    now: BookView,
    emitted: int,
)
    requires
        pass_inputs(book, sightings, new_slots),
        0 <= k < sightings.len(),
        settled_so_far(observer, shard, book, sightings, new_slots, k, now, emitted),
        untouched_yet(observer, book, sightings, k, now),
        verdict(observer, shard, book, sightings[k]) is None,
    ensures
        settled_so_far(observer, shard, book, sightings, new_slots, k + 1, now, emitted),
{
    let s = sightings[k];
    let x = s.entity_id;
    lemma_knows(book, x);
    if x != observer {
        assert(!knows(book, x) && !s.within_radius);
        assert forall|slot: Seq<char>, rec: ContactView|
            rec.entity_id == x implies !#[trigger] holds(now, slot, rec) by {
            if holds(now, slot, rec) {
                assert(holds(book, slot, rec));
            }
        }
    }
}

/// An addition keeps the invariant.
#[verifier::rlimit(40)]
#[verifier::spinoff_prover]
proof fn lemma_step_add(
    observer: Seq<char>,
    shard: Seq<char>,
    book: BookView,
    sightings: Seq<SightingView>,
    new_slots: Seq<Seq<char>>,
    k: int,
    now: BookView,
    emitted: int,
)
    requires
        pass_inputs(book, sightings, new_slots),
        0 <= k < sightings.len(),
        settled_so_far(observer, shard, book, sightings, new_slots, k, now, emitted),
        untouched_yet(observer, book, sightings, k, now),
        sightings[k].entity_id != observer,
        !knows(book, sightings[k].entity_id),
        sightings[k].within_radius,
    ensures
        settled_so_far(
            observer,
            shard,
            book,
            sightings,
            new_slots,
            k + 1,
            written(now, new_slots[emitted], contact_for(shard, sightings[k])),
            emitted + 1,
        ),
{
    let s = sightings[k];
    let x = s.entity_id;
    let c = contact_for(shard, s);
    let key = new_slots[emitted];
    let next = written(now, key, c);
    lemma_knows(book, x);
    assert forall|slot: Seq<char>, rec: ContactView|
        rec.entity_id == x implies !#[trigger] holds(now, slot, rec) by {
        if holds(now, slot, rec) {
            assert(holds(book, slot, rec));
        }
    }
    assert(!occupied(now, key)) by {
        if occupied(now, key) {
            assert(!occupied(book, new_slots[emitted]));
            let j = choose|j: int| 0 <= j < emitted && (#[trigger] new_slots[j]) == key;
            assert(new_slots[j] != new_slots[emitted]);
        }
    }
    assert forall|slot: Seq<char>, rec: ContactView|
        #![trigger holds(next, slot, rec)]
        #![trigger holds(now, slot, rec)]
        (holds(next, slot, rec) <==> (slot == key && rec == c) || holds(now, slot, rec)) && (
        holds(now, slot, rec) ==> slot != key) by {
        lemma_written_holds(now, key, c, slot, rec);
        if holds(now, slot, rec) && slot == key {
            assert(occupied(now, key));
        }
    }
    lemma_written_holds(now, key, c, key, c);
    assert(single(next));
    assert forall|slot: Seq<char>| #[trigger] occupied(next, slot) implies occupied(book, slot)
        || used(new_slots, emitted + 1, slot) by {
        let rec = choose|rec: ContactView| holds(next, slot, rec);
        if slot == key {
            assert(0 <= emitted < emitted + 1 && new_slots[emitted] == slot);
        } else {
            assert(holds(now, slot, rec));
            assert(occupied(now, slot));
            if used(new_slots, emitted, slot) {
                let j = choose|j: int| 0 <= j < emitted && (#[trigger] new_slots[j]) == slot;
                assert(0 <= j < emitted + 1 && new_slots[j] == slot);
            }
        }
    }
    assert forall|i: int|
        0 <= i < k + 1 && (#[trigger] sightings[i]).entity_id != observer && stays(
            book,
            sightings[i],
        ) implies recorded(next, contact_for(shard, sightings[i])) by {
        if i < k {
            let ci = contact_for(shard, sightings[i]);
            assert(recorded(now, ci));
            let slot = choose|slot: Seq<char>| holds(now, slot, ci);
            assert(holds(next, slot, ci));
        } else {
            assert(holds(next, key, c));
        }
    }
}

/// What is known of the slot of an entity in contact whose sighting is next.
spec fn contact_slot(book: BookView, now: BookView, x: Seq<char>, slot0: Seq<char>) -> bool {
    &&& slot_of(book, x) == Some(slot0)
    &&& dotted(slot0) == slot0
    &&& occupied(book, slot0)
    &&& occupied(now, slot0)
    &&& forall|slot: Seq<char>, rec: ContactView| #[trigger]
        holds(now, slot, rec) ==> (slot == slot0 <==> rec.entity_id == x)
}

proof fn lemma_contact_slot(
    observer: Seq<char>,
    shard: Seq<char>,
    book: BookView,
    sightings: Seq<SightingView>,
    new_slots: Seq<Seq<char>>,
    k: int,
    now: BookView,
    emitted: int,
)
    requires
        pass_inputs(book, sightings, new_slots),
        0 <= k < sightings.len(),
        settled_so_far(observer, shard, book, sightings, new_slots, k, now, emitted),
        untouched_yet(observer, book, sightings, k, now),
        knows(book, sightings[k].entity_id),
    ensures
        contact_slot(book, now, sightings[k].entity_id, slot_of(book, sightings[k].entity_id)->0),
{
    let x = sightings[k].entity_id;
    lemma_knows(book, x);
    let slot0 = slot_of(book, x)->0;
    let rec0 = choose|rec: ContactView| #[trigger] holds(book, slot0, rec) && rec.entity_id == x;
    assert(holds(now, slot0, rec0));
    assert(dotted(slot0) == slot0) by {
        let i = choose|i: int| 0 <= i < book.len() && book[i] == (slot0, rec0);
        assert(!book[i].0.contains(':'));
        lemma_replaced_absent(slot0, ':', '.');
    }
    assert forall|slot: Seq<char>, rec: ContactView| #[trigger]
        holds(now, slot, rec) implies (slot == slot0 <==> rec.entity_id == x) by {
        if slot == slot0 {
            lemma_functional(now, slot, rec, rec0);
        }
    }
}

/// Using more slots never makes a slot unused.
proof fn lemma_used_more(new_slots: Seq<Seq<char>>, n: int, slot: Seq<char>)
    requires
        used(new_slots, n, slot),
    ensures
        used(new_slots, n + 1, slot),
{
    let j = choose|j: int| 0 <= j < n && (#[trigger] new_slots[j]) == slot;
    assert(0 <= j < n + 1 && new_slots[j] == slot);
}

/// A change keeps the invariant.
#[verifier::rlimit(40)]
#[verifier::spinoff_prover]
proof fn lemma_step_change(
    observer: Seq<char>,
    shard: Seq<char>,
    book: BookView,
    sightings: Seq<SightingView>,
    new_slots: Seq<Seq<char>>,
    k: int,
    now: BookView,
    emitted: int,
    slot0: Seq<char>,
)
    requires
        pass_inputs(book, sightings, new_slots),
        0 <= k < sightings.len(),
        settled_so_far(observer, shard, book, sightings, new_slots, k, now, emitted),
        untouched_yet(observer, book, sightings, k, now),
        contact_slot(book, now, sightings[k].entity_id, slot0),
        sightings[k].entity_id != observer,
        sightings[k].within_radius,
        sightings[k].transponder_present,
    ensures
        settled_so_far(
            observer,
            shard,
            book,
            sightings,
            new_slots,
            k + 1,
            written(now, slot0, contact_for(shard, sightings[k])),
            emitted + 1,
        ),
{
    let s = sightings[k];
    let x = s.entity_id;
    let c = contact_for(shard, s);
    let next = written(now, slot0, c);
    assert forall|slot: Seq<char>, rec: ContactView|
        #![trigger holds(next, slot, rec)]
        #![trigger holds(now, slot, rec)]
        (holds(next, slot, rec) <==> (slot == slot0 && rec == c) || (slot != slot0 && holds(
            now,
            slot,
            rec,
        ))) by {
        lemma_written_holds(now, slot0, c, slot, rec);
    }
    lemma_written_holds(now, slot0, c, slot0, c);
    assert(single(next));
    assert forall|slot: Seq<char>| #[trigger] occupied(next, slot) implies occupied(book, slot)
        || used(new_slots, emitted + 1, slot) by {
        let rec = choose|rec: ContactView| holds(next, slot, rec);
        if slot != slot0 {
            assert(holds(now, slot, rec));
            assert(occupied(now, slot));
            if used(new_slots, emitted, slot) {
                lemma_used_more(new_slots, emitted, slot);
            }
        }
    }
    assert forall|i: int|
        0 <= i < k + 1 && (#[trigger] sightings[i]).entity_id != observer && stays(
            book,
            sightings[i],
        ) implies recorded(next, contact_for(shard, sightings[i])) by {
        if i < k {
            let ci = contact_for(shard, sightings[i]);
            assert(recorded(now, ci));
            let slot = choose|slot: Seq<char>| holds(now, slot, ci);
            assert(holds(next, slot, ci));
        } else {
            assert(holds(next, slot0, c));
        }
    }
}

/// A removal keeps the invariant.
#[verifier::rlimit(40)]
#[verifier::spinoff_prover]
proof fn lemma_step_remove(
    observer: Seq<char>,
    shard: Seq<char>,
    book: BookView,
    sightings: Seq<SightingView>,
    new_slots: Seq<Seq<char>>,
    k: int,
    now: BookView,
    emitted: int,
    slot0: Seq<char>,
)
    requires
        pass_inputs(book, sightings, new_slots),
        0 <= k < sightings.len(),
        settled_so_far(observer, shard, book, sightings, new_slots, k, now, emitted),
        untouched_yet(observer, book, sightings, k, now),
        contact_slot(book, now, sightings[k].entity_id, slot0),
        sightings[k].entity_id != observer,
        !(sightings[k].within_radius && sightings[k].transponder_present),
    ensures
        settled_so_far(
            observer,
            shard,
            book,
            sightings,
            new_slots,
            k + 1,
            erased(now, slot0),
            emitted + 1,
        ),
{
    let s = sightings[k];
    let x = s.entity_id;
    let next = erased(now, slot0);
    lemma_knows(book, x);
    assert forall|slot: Seq<char>, rec: ContactView|
        #![trigger holds(next, slot, rec)]
        #![trigger holds(now, slot, rec)]
        (holds(next, slot, rec) <==> (slot != slot0 && holds(now, slot, rec))) by {
        lemma_erased_holds(now, slot0, slot, rec);
    }
    let rec0 = choose|rec: ContactView| holds(now, slot0, rec);
    lemma_erased_holds(now, slot0, slot0, rec0);
    assert(single(next));
    assert forall|slot: Seq<char>| #[trigger] occupied(next, slot) implies occupied(book, slot)
        || used(new_slots, emitted + 1, slot) by {
        let rec = choose|rec: ContactView| holds(next, slot, rec);
        assert(holds(now, slot, rec));
        assert(occupied(now, slot));
        if used(new_slots, emitted, slot) {
            lemma_used_more(new_slots, emitted, slot);
        }
    }
    assert forall|i: int|
        0 <= i < k + 1 && (#[trigger] sightings[i]).entity_id != observer && stays(
            book,
            sightings[i],
        ) implies recorded(next, contact_for(shard, sightings[i])) by {
        if i < k {
            let ci = contact_for(shard, sightings[i]);
            assert(recorded(now, ci));
            let slot = choose|slot: Seq<char>| holds(now, slot, ci);
            assert(holds(next, slot, ci));
        }
    }
}

/// The invariant survives one more sighting.
proof fn lemma_step(
    observer: Seq<char>,
    shard: Seq<char>,
    book: BookView,
    sightings: Seq<SightingView>,
    new_slots: Seq<Seq<char>>,
    k: int,
    now: BookView,
    emitted: int,
)
    requires
        pass_inputs(book, sightings, new_slots),
        0 <= k < sightings.len(),
        settled_so_far(observer, shard, book, sightings, new_slots, k, now, emitted),
    ensures
        match verdict(observer, shard, book, sightings[k]) {
            Some(delta) => settled_so_far(
                observer,
                shard,
                book,
                sightings,
                new_slots,
                k + 1,
                applied(now, delta, new_slots[emitted]),
                emitted + 1,
            ),
            None => settled_so_far(
                observer,
                shard,
                book,
                sightings,
                new_slots,
                k + 1,
                now,
                emitted,
            ),
        },
{
    let s = sightings[k];
    let x = s.entity_id;
    lemma_untouched_yet(observer, shard, book, sightings, new_slots, k, now, emitted);
    if verdict(observer, shard, book, s) is None {
        lemma_step_nothing(observer, shard, book, sightings, new_slots, k, now, emitted);
    } else if !knows(book, x) {
        lemma_step_add(observer, shard, book, sightings, new_slots, k, now, emitted);
    } else {
        let slot0 = slot_of(book, x)->0;
        lemma_contact_slot(observer, shard, book, sightings, new_slots, k, now, emitted);
        if s.within_radius && s.transponder_present {
            lemma_step_change(observer, shard, book, sightings, new_slots, k, now, emitted, slot0);
        } else {
            lemma_step_remove(observer, shard, book, sightings, new_slots, k, now, emitted, slot0);
        }
    }
}

/// The invariant holds after the deltas of any number of leading sightings.
proof fn lemma_settle(
    observer: Seq<char>,
    shard: Seq<char>,
    book: BookView,
    sightings: Seq<SightingView>,
    new_slots: Seq<Seq<char>>,
    k: int,
)
    requires
        pass_inputs(book, sightings, new_slots),
        0 <= k <= sightings.len(),
    ensures
        settled_so_far(
            observer,
            shard,
            book,
            sightings,
            new_slots,
            k,
            applied_all(book, pass_deltas(observer, shard, book, sightings.take(k)), new_slots),
            pass_deltas(observer, shard, book, sightings.take(k)).len() as int,
        ),
    decreases k,
{
    let f = verdict_of(observer, shard, book);
    if k == 0 {
        assert(sightings.take(0) =~= Seq::<SightingView>::empty());
        assert(pass_deltas(observer, shard, book, sightings.take(0)) =~= Seq::<DeltaView>::empty());
        lemma_single(book);
        assert forall|e: Seq<char>| !#[trigger] sighted_before(observer, sightings, 0, e) by {}
    } else {
        lemma_settle(observer, shard, book, sightings, new_slots, k - 1);
        let before = pass_deltas(observer, shard, book, sightings.take(k - 1));
        let now = applied_all(book, before, new_slots);
        lemma_step(observer, shard, book, sightings, new_slots, k - 1, now, before.len() as int);
        sightings.lemma_filter_map_take_succ(f, k - 1);
        let after = pass_deltas(observer, shard, book, sightings.take(k));
        match verdict(observer, shard, book, sightings[k - 1]) {
            Some(delta) => {
                assert(after =~= before + seq![delta]);
                assert(after.drop_last() =~= before);
                assert(after.last() == delta);
            },
            None => {
                assert(after =~= before);
            },
        }
    }
}

/// What one pass leaves in the book.
///
/// Apply the deltas of a pass, in order, to the book the pass started from.
/// Then every sighted entity other than the observer is in contact exactly
/// if it is in range and either has a transponder or was not in contact
/// before, and the one record about it is the one computed from its
/// sighting. Records about entities that were not sighted, and about the
/// observer, are as they were. Slots stay distinct, no entity has two
/// records, and every slot is an old one or one of the new ones.
pub proof fn lemma_pass_outcome(
    observer: Seq<char>,
    shard: Seq<char>,
    book: BookView,
    sightings: Seq<SightingView>,
    new_slots: Seq<Seq<char>>,
)
    requires
        pass_inputs(book, sightings, new_slots),
    ensures
        ({
            let after = applied_all(
                book,
                pass_deltas(observer, shard, book, sightings),
                new_slots,
            );
            &&& distinct_keys(after)
            &&& one_record_each(after)
            &&& forall|slot: Seq<char>| #[trigger]
                occupied(after, slot) ==> occupied(book, slot) || used(
                    new_slots,
                    new_slots.len() as int,
                    slot,
                )
            &&& forall|i: int|
                0 <= i < sightings.len() && (#[trigger] sightings[i]).entity_id != observer
                    ==> (knows(after, sightings[i].entity_id) <==> stays(book, sightings[i]))
            &&& forall|i: int, slot: Seq<char>, rec: ContactView|
                #![trigger holds(after, slot, rec), sightings[i]]
                0 <= i < sightings.len() && sightings[i].entity_id != observer && rec.entity_id
                    == sightings[i].entity_id && holds(after, slot, rec) ==> rec == contact_for(
                    shard,
                    sightings[i],
                )
            &&& forall|slot: Seq<char>, rec: ContactView|
                #![trigger holds(after, slot, rec)]
                #![trigger holds(book, slot, rec)]
                !sighted_before(observer, sightings, sightings.len() as int, rec.entity_id) ==> (
                holds(after, slot, rec) <==> holds(book, slot, rec))
        }),
{
    let n = sightings.len() as int;
    let deltas = pass_deltas(observer, shard, book, sightings);
    let after = applied_all(book, deltas, new_slots);
    assert(sightings.take(n) =~= sightings);
    lemma_settle(observer, shard, book, sightings, new_slots, n);
    lemma_one_record_each(after);
    assert forall|slot: Seq<char>| #[trigger] occupied(after, slot) implies occupied(book, slot)
        || used(new_slots, new_slots.len() as int, slot) by {
        if used(new_slots, deltas.len() as int, slot) {
            let j = choose|j: int| 0 <= j < deltas.len() && (#[trigger] new_slots[j]) == slot;
            assert(0 <= j < new_slots.len() && new_slots[j] == slot);
        }
    }
    assert forall|i: int|
        0 <= i < sightings.len() && (#[trigger] sightings[i]).entity_id
            != observer implies (knows(after, sightings[i].entity_id) <==> stays(
        book,
        sightings[i],
    )) by {
        let x = sightings[i].entity_id;
        lemma_knows(after, x);
        if knows(after, x) {
            let (slot, rec) = choose|slot: Seq<char>, rec: ContactView|
                #[trigger] holds(after, slot, rec) && rec.entity_id == x;
            assert(stays(book, sightings[i]));
        }
        if stays(book, sightings[i]) {
            let ci = contact_for(shard, sightings[i]);
            assert(recorded(after, ci));
            let slot = choose|slot: Seq<char>| holds(after, slot, ci);
            assert(holds(after, slot, ci) && ci.entity_id == x);
        }
    }
}

/// What a first sighting means when nothing is in contact yet.
pub open spec fn first_verdict(observer: Seq<char>, shard: Seq<char>) -> spec_fn(
    SightingView,
) -> Option<DeltaView> {
    |s: SightingView|
        if s.entity_id != observer && s.within_radius {
            Some(DeltaView::Add(contact_for(shard, s)))
        } else {
            None
        }
}

/// A pass that starts from an empty book adds exactly the sighted entities
/// in range, the observer excepted, and does nothing else.
pub proof fn lemma_first_pass(observer: Seq<char>, shard: Seq<char>, sightings: Seq<SightingView>)
    ensures
        pass_deltas(observer, shard, BookView::empty(), sightings) == sightings.filter_map(
            first_verdict(observer, shard),
        ),
{
    let empty = BookView::empty();
    let f = verdict_of(observer, shard, empty);
    let g = first_verdict(observer, shard);
    assert forall|s: SightingView| #[trigger] f(s) == g(s) by {
        lemma_first_where_none(empty, is_about(s.entity_id));
    }
    assert(f =~= g);
}

/// Where every verdict is "nothing", a pass emits nothing.
proof fn lemma_all_none(f: spec_fn(SightingView) -> Option<DeltaView>, seen: Seq<SightingView>)
    requires
        forall|j: int| 0 <= j < seen.len() ==> f(#[trigger] seen[j]) is None,
    ensures
        seen.filter_map(f) == Seq::<DeltaView>::empty(),
    decreases seen.len(),
{
    if seen.len() > 0 {
        let init = seen.drop_last();
        assert forall|j: int| 0 <= j < init.len() implies f(#[trigger] init[j]) is None by {
            assert(init[j] == seen[j]);
        }
        lemma_all_none(f, init);
        assert(f(seen[seen.len() - 1]) is None);
    }
}

/// Whether `remaining` shows nothing but entities that `sightings` showed and
/// that the pass over `sightings` did not evict, each as it was sighted
/// then: the position cache is unchanged but for the evictions.
pub open spec fn left_after(
    observer: Seq<char>,
    book: BookView,
    sightings: Seq<SightingView>,
    remaining: Seq<SightingView>,
) -> bool {
    forall|j: int|
        0 <= j < remaining.len() ==> exists|i: int|
            0 <= i < sightings.len() && (#[trigger] sightings[i]) == (#[trigger] remaining[j])
                && despawned(observer, book, sightings[i]) is None
}

/// Whether no new slot holds a colon.
pub open spec fn new_slots_bus_spelled(new_slots: Seq<Seq<char>>) -> bool {
    forall|j: int| 0 <= j < new_slots.len() ==> !(#[trigger] new_slots[j]).contains(':')
}

/// After a pass the book is still spelled the way the bus spells slots.
proof fn lemma_after_bus_spelled(
    observer: Seq<char>,
    shard: Seq<char>,
    book: BookView,
    sightings: Seq<SightingView>,
    new_slots: Seq<Seq<char>>,
)
    requires
        pass_inputs(book, sightings, new_slots),
        new_slots_bus_spelled(new_slots),
    ensures
        bus_spelled(
            applied_all(book, pass_deltas(observer, shard, book, sightings), new_slots),
        ),
{
    let after = applied_all(book, pass_deltas(observer, shard, book, sightings), new_slots);
    lemma_pass_outcome(observer, shard, book, sightings, new_slots);
    assert forall|i: int| 0 <= i < after.len() implies !(#[trigger] after[i]).0.contains(':') by {
        let slot = after[i].0;
        assert(after[i] == (slot, after[i].1));
        assert(holds(after, slot, after[i].1));
        assert(occupied(after, slot));
        if occupied(book, slot) {
            let rec = choose|rec: ContactView| holds(book, slot, rec);
            let j = choose|j: int| 0 <= j < book.len() && book[j] == (slot, rec);
            assert(!book[j].0.contains(':'));
        } else {
            let j = choose|j: int| 0 <= j < new_slots.len() && (#[trigger] new_slots[j]) == slot;
            assert(!new_slots[j].contains(':'));
        }
    }
}

/// A second pass right after the first is silent where the first left
/// nothing in contact.
///
/// Apply the deltas of a pass to the book, evict what the pass evicted from
/// the position cache, and run the pass again on what is left. If every
/// sighted entity in range was a contact that had lost its transponder, so
/// that none of them is in contact now, the second pass emits no delta.
pub proof fn lemma_second_pass_quiet(
    observer: Seq<char>,
    shard: Seq<char>,
    book: BookView,
    sightings: Seq<SightingView>,
    new_slots: Seq<Seq<char>>,
    remaining: Seq<SightingView>,
)
    requires
        pass_inputs(book, sightings, new_slots),
        left_after(observer, book, sightings, remaining),
        forall|i: int|
            0 <= i < sightings.len() && (#[trigger] sightings[i]).entity_id != observer
                && sightings[i].within_radius ==> knows(book, sightings[i].entity_id)
                && !sightings[i].transponder_present,
    ensures
        pass_deltas(
            observer,
            shard,
            applied_all(book, pass_deltas(observer, shard, book, sightings), new_slots),
            remaining,
        ) == Seq::<DeltaView>::empty(),
{
    let after = applied_all(book, pass_deltas(observer, shard, book, sightings), new_slots);
    let f = verdict_of(observer, shard, after);
    lemma_pass_outcome(observer, shard, book, sightings, new_slots);
    assert forall|j: int| 0 <= j < remaining.len() implies f(#[trigger] remaining[j]) is None by {
        let i = choose|i: int|
            0 <= i < sightings.len() && (#[trigger] sightings[i]) == remaining[j] && despawned(
                observer,
                book,
                sightings[i],
            ) is None;
        let s = sightings[i];
        if s.entity_id != observer {
            assert(!s.within_radius);
            assert(!stays(book, s));
            assert(!knows(after, s.entity_id));
        }
    }
    lemma_all_none(f, remaining);
}

/// Whether a delta only says again what the book already holds.
pub open spec fn restates(book: BookView, delta: DeltaView) -> bool {
    delta matches DeltaView::Change(slot, rec) && holds(book, slot, rec)
}

/// Writing into a slot what it already holds changes nothing.
proof fn lemma_written_same(book: BookView, slot: Seq<char>, rec: ContactView)
    requires
        distinct_keys(book),
        holds(book, slot, rec),
    ensures
        written(book, slot, rec) == book,
{
    lemma_first_where(book, key_is::<ContactView>(slot));
    match position_of(book, slot) {
        Some(i) => {
            assert(book[i] == (book[i].0, book[i].1));
            assert(holds(book, slot, book[i].1));
            lemma_functional(book, slot, rec, book[i].1);
            assert(book.update(i, (slot, rec)) =~= book);
        },
        None => {
            let j = choose|j: int| 0 <= j < book.len() && book[j] == (slot, rec);
            assert(!key_is::<ContactView>(slot)(book[j]));
        },
    }
}

/// Deltas that only restate the book leave it as it is.
proof fn lemma_restating(book: BookView, deltas: Seq<DeltaView>, new_slots: Seq<Seq<char>>)
    requires
        distinct_keys(book),
        forall|k: int| 0 <= k < deltas.len() ==> restates(book, #[trigger] deltas[k]),
    ensures
        applied_all(book, deltas, new_slots) == book,
    decreases deltas.len(),
{
    if deltas.len() > 0 {
        let init = deltas.drop_last();
        assert forall|k: int| 0 <= k < init.len() implies restates(book, #[trigger] init[k]) by {
            assert(init[k] == deltas[k]);
        }
        lemma_restating(book, init, new_slots);
        assert(restates(book, deltas[deltas.len() - 1]));
        match deltas.last() {
            DeltaView::Change(slot, rec) => {
                lemma_written_same(book, slot, rec);
            },
            _ => {},
        }
    }
}

/// A second pass right after the first is a fixed point of the book.
///
/// Apply the deltas of a pass to the book, evict what the pass evicted from
/// the position cache, and run the pass again on what is left. If every
/// entity that the first pass added has a transponder, the second pass adds
/// nothing and removes nothing: each of its deltas is a change that writes
/// into a slot the record that the slot already holds, so applying them
/// leaves the book as the first pass left it.
pub proof fn lemma_second_pass_fixed_point(
    observer: Seq<char>,
    shard: Seq<char>,
    book: BookView,
    sightings: Seq<SightingView>,
    new_slots: Seq<Seq<char>>,
    remaining: Seq<SightingView>,
    later_slots: Seq<Seq<char>>,
)
    requires
        pass_inputs(book, sightings, new_slots),
        new_slots_bus_spelled(new_slots),
        left_after(observer, book, sightings, remaining),
        forall|i: int|
            0 <= i < sightings.len() && (#[trigger] sightings[i]).entity_id != observer
                && sightings[i].within_radius && !knows(book, sightings[i].entity_id)
                ==> sightings[i].transponder_present,
    ensures
        ({
            let after = applied_all(
                book,
                pass_deltas(observer, shard, book, sightings),
                new_slots,
            );
            let again = pass_deltas(observer, shard, after, remaining);
            &&& forall|k: int| 0 <= k < again.len() ==> restates(after, #[trigger] again[k])
            &&& applied_all(after, again, later_slots) == after
        }),
{
    let after = applied_all(book, pass_deltas(observer, shard, book, sightings), new_slots);
    let f = verdict_of(observer, shard, after);
    let again = pass_deltas(observer, shard, after, remaining);
    lemma_pass_outcome(observer, shard, book, sightings, new_slots);
    lemma_after_bus_spelled(observer, shard, book, sightings, new_slots);
    assert forall|k: int| 0 <= k < again.len() implies restates(after, #[trigger] again[k]) by {
        let delta = again[k];
        assert(remaining.filter_map(f).contains(delta));
        remaining.lemma_filter_map_contains(f, delta);
        let r = choose|r: SightingView| #[trigger] remaining.contains(r) && f(r) == Some(delta);
        let j = choose|j: int| 0 <= j < remaining.len() && remaining[j] == r;
        let i = choose|i: int|
            0 <= i < sightings.len() && (#[trigger] sightings[i]) == remaining[j] && despawned(
                observer,
                book,
                sightings[i],
            ) is None;
        let s = sightings[i];
        let x = s.entity_id;
        assert(x != observer);
        lemma_knows(after, x);
        assert(knows(after, x) <==> stays(book, s));
        if knows(after, x) {
            let slot = slot_of(after, x)->0;
            let rec = choose|rec: ContactView| #[trigger] holds(after, slot, rec) && rec.entity_id == x;
            assert(rec == contact_for(shard, s));
            assert(dotted(slot) == slot) by {
                let p = choose|p: int| 0 <= p < after.len() && after[p] == (slot, rec);
                assert(!after[p].0.contains(':'));
                lemma_replaced_absent(slot, ':', '.');
            }
            assert(s.transponder_present);
        }
    }
    lemma_restating(after, again, later_slots);
}

/// Carries out one delta on a contact book. `new_slot` is the slot that the
/// protocol layer assigns if the delta is an addition; otherwise it is not
/// used.
pub fn apply(book: &mut ContactBook, delta: &RadarContactDelta, new_slot: &str)
    ensures
        final(book)@ == applied(old(book)@, delta@, new_slot@),
{
    match delta {
        RadarContactDelta::Add(c) => {
            book.insert(new_slot.to_owned(), c.duplicate());
        },
        RadarContactDelta::Remove(slot) => {
            book.remove(slot);
        },
        RadarContactDelta::Change(slot, c) => {
            book.insert(slot.clone(), c.duplicate());
        },
    }
}

} // verus!
