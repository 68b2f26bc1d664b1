//! The reconciliation engine. Once per tick and observer it compares what the
//! position cache shows with the contacts published for that observer
//! earlier, and says which contacts to add, change and remove.

use vstd::prelude::*;
use crate::address::{dotted, key_to_rid, transponder_for_entity, transponder_rid_spec};
use crate::components::{ContactView, Degrees, RadarContact};
use crate::contacts::{knows, slot_of, BookView, ContactBook};

verus! {

/// One entry of the position cache as the observer sees it on this tick: who
/// it is, whether it lies within the receiver's radius, and the vector to
/// it. Distances and angles are computed by the caller from the two
/// positions; the engine takes them as they are.
#[derive(Clone, Debug, PartialEq)]
pub struct Sighting {
    pub entity_id: String,
    /// Whether the straight-line distance is at most the receiver's radius.
    pub within_radius: bool,
    /// Whether the store still holds a transponder for the entity. The engine
    /// reads this only for entities the observer already has in contact; a
    /// store that could not answer counts as "present".
    pub transponder_present: bool,
    pub distance: u32,
    pub distance_xy: u32,
    pub azimuth: Degrees,
    pub elevation: Degrees,
}

/// What a `Sighting` is, as plain values.
pub struct SightingView {
    pub entity_id: Seq<char>,
    pub within_radius: bool,
    pub transponder_present: bool,
    pub distance: u32,
    pub distance_xy: u32,
    pub azimuth: Degrees,
    pub elevation: Degrees,
}

impl View for Sighting {
    type V = SightingView;

    open spec fn view(&self) -> SightingView {
        SightingView {
            entity_id: self.entity_id@,
            within_radius: self.within_radius,
            transponder_present: self.transponder_present,
            distance: self.distance,
            distance_xy: self.distance_xy,
            azimuth: self.azimuth,
            elevation: self.elevation,
        }
    }
}

/// One change to an observer's contact collection.
#[derive(Clone, Debug, PartialEq)]
pub enum RadarContactDelta {
    /// A new contact. The slot it goes into is assigned when it is published.
    Add(RadarContact),
    /// The contact in this slot is to go.
    Remove(String),
    /// The contact in this slot is to be replaced by this one.
    Change(String, RadarContact),
}

/// What a `RadarContactDelta` is, as plain values.
pub enum DeltaView {
    Add(ContactView),
    Remove(Seq<char>),
    Change(Seq<char>, ContactView),
}

impl View for RadarContactDelta {
    type V = DeltaView;

    open spec fn view(&self) -> DeltaView {
        match self {
            RadarContactDelta::Add(c) => DeltaView::Add(c@),
            RadarContactDelta::Remove(slot) => DeltaView::Remove(slot@),
            RadarContactDelta::Change(slot, c) => DeltaView::Change(slot@, c@),
        }
    }
}

/// The views of a run of sightings.
pub open spec fn sighting_views(s: Seq<Sighting>) -> Seq<SightingView> {
    s.map_values(|x: Sighting| x@)
}

/// The views of a run of deltas.
pub open spec fn delta_views(d: Seq<RadarContactDelta>) -> Seq<DeltaView> {
    d.map_values(|x: RadarContactDelta| x@)
}

/// The contact record that a sighting gives rise to.
pub open spec fn contact_for(shard: Seq<char>, s: SightingView) -> ContactView {
    ContactView {
        entity_id: s.entity_id,
        distance: s.distance,
        distance_xy: s.distance_xy,
        azimuth: s.azimuth,
        elevation: s.elevation,
        transponder: transponder_rid_spec(shard, s.entity_id),
    }
}

/// What one sighting means for the observer's contacts.
///
/// The observer never sees itself. An entity already in contact is removed
/// if its transponder is gone, refreshed if it is in range, and removed if
/// it is out of range. An entity not in contact is added if it is in range.
/// Slots are named the way the bus spells them.
pub open spec fn verdict(
    observer: Seq<char>,
    shard: Seq<char>,
    book: BookView,
    s: SightingView,
) -> Option<DeltaView> {
    if s.entity_id == observer {
        None
    } else {
        match slot_of(book, s.entity_id) {
            Some(slot) => if !s.transponder_present {
                Some(DeltaView::Remove(dotted(slot)))
            } else if s.within_radius {
                Some(DeltaView::Change(dotted(slot), contact_for(shard, s)))
            } else {
                Some(DeltaView::Remove(dotted(slot)))
            },
            None => if s.within_radius {
                Some(DeltaView::Add(contact_for(shard, s)))
            } else {
                None
            },
        }
    }
}

/// `verdict` with all but the sighting fixed.
pub open spec fn verdict_of(observer: Seq<char>, shard: Seq<char>, book: BookView) -> spec_fn(
    SightingView,
) -> Option<DeltaView> {
    |s: SightingView| verdict(observer, shard, book, s)
}

/// The deltas of one pass: the verdicts on the sightings, in the order of
/// the sightings.
pub open spec fn pass_deltas(
    observer: Seq<char>,
    shard: Seq<char>,
    book: BookView,
    sightings: Seq<SightingView>,
) -> Seq<DeltaView> {
    sightings.filter_map(verdict_of(observer, shard, book))
}

/// Whether a sighting shows that an entity in contact has despawned: then,
/// and only then, the entity leaves the position cache.
pub open spec fn despawned(observer: Seq<char>, book: BookView, s: SightingView) -> Option<
    Seq<char>,
> {
    if s.entity_id != observer && slot_of(book, s.entity_id) is Some && !s.transponder_present {
        Some(s.entity_id)
    } else {
        None
    }
}

/// `despawned` with all but the sighting fixed.
pub open spec fn despawned_of(observer: Seq<char>, book: BookView) -> spec_fn(
    SightingView,
) -> Option<Seq<char>> {
    |s: SightingView| despawned(observer, book, s)
}

/// The entities that one pass evicts from the position cache.
pub open spec fn pass_evictions(
    observer: Seq<char>,
    book: BookView,
    sightings: Seq<SightingView>,
) -> Seq<Seq<char>> {
    sightings.filter_map(despawned_of(observer, book))
}

/// Whether the store is to be asked for the transponder of `candidate`:
/// only entities already in contact are checked, and never the observer.
pub fn wants_transponder_check(entity_id: &str, old_contacts: &ContactBook, candidate: &str) -> (r:
    bool)
    ensures
        r == (candidate@ != entity_id@ && knows(old_contacts@, candidate@)),
{
    !(*candidate == *entity_id) && old_contacts.slot_of_entity(candidate).is_some()
}

/// What the store's answer about a transponder counts as. Only a clear "it
/// does not exist" counts as absent; a store that could not answer leaves
/// the entity in place.
pub fn transponder_present(answer: Option<bool>) -> (r: bool)
    ensures
        r == (answer != Some(false)),
{
    match answer {
        Some(exists) => exists,
        None => true,
    }
}

/// The contact record for a sighting.
pub fn contact_from(shard: &str, s: &Sighting) -> (c: RadarContact)
    ensures
        c@ == contact_for(shard@, s@),
{
    RadarContact {
        entity_id: s.entity_id.clone(),
        distance: s.distance,
        distance_xy: s.distance_xy,
        azimuth: s.azimuth,
        elevation: s.elevation,
        transponder: transponder_for_entity(shard, &s.entity_id),
    }
}

/// What one sighting means for the observer's contacts.
pub fn judge(entity_id: &str, shard: &str, old_contacts: &ContactBook, s: &Sighting) -> (r: Option<
    RadarContactDelta,
>)
    ensures
        match r {
            Some(d) => verdict(entity_id@, shard@, old_contacts@, s@) == Some(d@),
            None => verdict(entity_id@, shard@, old_contacts@, s@) is None,
        },
{
    if *s.entity_id == *entity_id {
        return None;
    }
    match old_contacts.slot_of_entity(&s.entity_id) {
        Some(slot) => {
            let rid = key_to_rid(slot);
            if !s.transponder_present {
                Some(RadarContactDelta::Remove(rid))
            } else if s.within_radius {
                Some(RadarContactDelta::Change(rid, contact_from(shard, s)))
            } else {
                Some(RadarContactDelta::Remove(rid))
            }
        },
        None => {
            if s.within_radius {
                Some(RadarContactDelta::Add(contact_from(shard, s)))
            } else {
                None
            }
        },
    }
}

/// All changes to the contacts of the observer `entity_id` that this tick's
/// sightings call for, one verdict per sighting, in the order of the
/// sightings. A previous contact whose entity is not among the sightings is
/// left alone.
pub fn radar_updates(
    entity_id: &str,
    shard: &str,
    old_contacts: &ContactBook,
    sightings: &Vec<Sighting>,
) -> (deltas: Vec<RadarContactDelta>)
    ensures
        delta_views(deltas@) == pass_deltas(
            entity_id@,
            shard@,
            old_contacts@,
            sighting_views(sightings@),
        ),
{
    let ghost seen = sighting_views(sightings@);
    let ghost f = verdict_of(entity_id@, shard@, old_contacts@);
    let mut deltas: Vec<RadarContactDelta> = Vec::new();
    let mut i: usize = 0;
    assert(seen.take(0) =~= Seq::<SightingView>::empty());
    assert(delta_views(deltas@) =~= seen.take(0).filter_map(f));
    while i < sightings.len()
        invariant
            i <= sightings.len(),
            seen == sighting_views(sightings@),
            f == verdict_of(entity_id@, shard@, old_contacts@),
            delta_views(deltas@) == seen.take(i as int).filter_map(f),
        decreases sightings.len() - i,
    {
        let ghost before = delta_views(deltas@);
        proof {
            seen.lemma_filter_map_take_succ(f, i as int);
        }
        match judge(entity_id, shard, old_contacts, &sightings[i]) {
            Some(d) => {
                let ghost dv = d@;
                deltas.push(d);
                assert(delta_views(deltas@) =~= before + seq![dv]);
            },
            None => {},
        }
        i += 1;
    }
    assert(seen.take(sightings.len() as int) =~= seen);
    deltas
}

/// The entities that this tick's pass evicts from the position cache: those
/// in contact whose transponder is gone. Nothing else ever leaves the cache.
pub fn radar_evictions(entity_id: &str, old_contacts: &ContactBook, sightings: &Vec<Sighting>) -> (gone:
    Vec<String>)
    ensures
        crate::text::views(gone@) == pass_evictions(
            entity_id@,
            old_contacts@,
            sighting_views(sightings@),
        ),
{
    let ghost seen = sighting_views(sightings@);
    let ghost f = despawned_of(entity_id@, old_contacts@);
    let mut gone: Vec<String> = Vec::new();
    let mut i: usize = 0;
    assert(seen.take(0) =~= Seq::<SightingView>::empty());
    assert(crate::text::views(gone@) =~= seen.take(0).filter_map(f));
    while i < sightings.len()
        invariant
            i <= sightings.len(),
            seen == sighting_views(sightings@),
            f == despawned_of(entity_id@, old_contacts@),
            crate::text::views(gone@) == seen.take(i as int).filter_map(f),
        decreases sightings.len() - i,
    {
        let ghost before = crate::text::views(gone@);
        proof {
            seen.lemma_filter_map_take_succ(f, i as int);
        }
        let s = &sightings[i];
        if !(*s.entity_id == *entity_id) && !s.transponder_present
            && old_contacts.slot_of_entity(&s.entity_id).is_some() {
            gone.push(s.entity_id.clone());
            assert(crate::text::views(gone@) =~= before + seq![s.entity_id@]);
        }
        i += 1;
    }
    assert(seen.take(sightings.len() as int) =~= seen);
    gone
}

} // verus!
