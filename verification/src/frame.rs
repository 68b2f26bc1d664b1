//! One frame of radar work, from the message body to the messages that go
//! out. Reading the store and the bus is the caller's part; everything the
//! radar decides in between is here.

use vstd::prelude::*;
use decscloud_common::systemmgr;
use crate::address::{
    component_key, component_key_spec, contacts_rid, contacts_rid_spec, dotted, entity_rid,
    entity_rid_spec, key_to_rid,
};
use crate::components::{ContactView, EntityFrame, FrameView, RadarContact};
use crate::error::RadarError;
use crate::gateway::{subject_of, RequestView, ResProtocolRequest};
use crate::contacts::ContactBook;
use crate::radar::{
    delta_views, pass_deltas, pass_evictions, radar_evictions, radar_updates, sighting_views,
    DeltaView, RadarContactDelta, Sighting,
};
use crate::text::views;

verus! {

/// The frame that a message body holds, if it is the JSON text of one.
pub uninterp spec fn frame_json(body: Seq<u8>) -> Option<FrameView>;

/// `serde_json::from_slice` into the common crate's `EntityFrame`. Whether a
/// body reads as a frame, and as which, depends on its bytes alone.
#[verifier::external_body]
fn decoded(body: &[u8]) -> (r: Option<EntityFrame>)
    ensures
        frame_json(body@) == match r {
            Some(frame) => Some(frame@),
            None => None,
        },
{
    match serde_json::from_slice::<systemmgr::EntityFrame>(body) {
        Ok(f) => Some(
            EntityFrame {
                seq_no: f.seq_no,
                elapsed_ms: f.elapsed_ms,
                shard: f.shard,
                entity_id: f.entity_id,
            },
        ),
        Err(_) => None,
    }
}

/// What to make of the outcome of reading a body as a frame.
pub fn frame_or_error(read: Option<EntityFrame>) -> (r: Result<EntityFrame, RadarError>)
    ensures
        match r {
            Ok(frame) => read == Some(frame),
            Err(e) => read is None && e == RadarError::MalformedPayload,
        },
{
    match read {
        Some(frame) => Ok(frame),
        None => Err(RadarError::MalformedPayload),
    }
}

/// Reads the body of a frame message.
pub fn decode_frame(body: &[u8]) -> (r: Result<EntityFrame, RadarError>)
    ensures
        match r {
            Ok(frame) => frame_json(body@) == Some(frame@),
            Err(e) => frame_json(body@) is None && e == RadarError::MalformedPayload,
        },
{
    frame_or_error(decoded(body))
}

/// The addresses one frame needs: what to read from the store before the
/// pass, and where the observer lives on the bus.
#[derive(Clone, Debug, PartialEq)]
pub struct FrameKeys {
    /// Store key of the observer's receiver.
    pub receiver: String,
    /// Store key of the observer's position.
    pub position: String,
    /// Store key of the list of the observer's contact slots.
    pub contacts: String,
    /// Resource id of the observer.
    pub resource_id: String,
}

/// The addresses for the entity that `frame` is about.
pub fn frame_keys(frame: &EntityFrame) -> (keys: FrameKeys)
    ensures
        keys.receiver@ == component_key_spec(frame.shard@, frame.entity_id@, "radar_receiver"@),
        keys.position@ == component_key_spec(frame.shard@, frame.entity_id@, "position"@),
        keys.contacts@ == component_key_spec(frame.shard@, frame.entity_id@, "radar_contacts"@),
        keys.resource_id@ == entity_rid_spec(frame.shard@, frame.entity_id@),
{
    FrameKeys {
        receiver: component_key(&frame.shard, &frame.entity_id, "radar_receiver"),
        position: component_key(&frame.shard, &frame.entity_id, "position"),
        contacts: component_key(&frame.shard, &frame.entity_id, "radar_contacts"),
        resource_id: entity_rid(&frame.shard, &frame.entity_id),
    }
}

/// The store key that tells whether `entity_id` still has a transponder.
pub fn transponder_key(shard: &str, entity_id: &str) -> (key: String)
    ensures
        key@ == component_key_spec(shard@, entity_id@, "transponder"@),
{
    component_key(shard, entity_id, "transponder")
}

/// Whether an entity is an observer: it is one exactly if the store holds
/// both a receiver and a position for it. An entity that is none gets no
/// pass, and that is no error.
pub fn is_observer(has_receiver: bool, has_position: bool) -> (r: bool)
    ensures
        r == (has_receiver && has_position),
{
    has_receiver && has_position
}

/// What travels under `params` in a published delta.
#[derive(Clone, Debug, PartialEq)]
pub enum Params {
    /// A whole contact record.
    Contact(RadarContact),
    /// The resource id of the slot to empty.
    Rid(String),
}

/// What `Params` is, as plain values.
pub enum ParamsView {
    Contact(ContactView),
    Rid(Seq<char>),
}

impl View for Params {
    type V = ParamsView;

    open spec fn view(&self) -> ParamsView {
        match self {
            Params::Contact(c) => ParamsView::Contact(c@),
            Params::Rid(rid) => ParamsView::Rid(rid@),
        }
    }
}

/// One delta on its way to the bus.
#[derive(Clone, Debug, PartialEq)]
pub struct Publication {
    pub subject: String,
    pub params: Params,
}

/// What a `Publication` is, as plain values.
pub struct PublicationView {
    pub subject: Seq<char>,
    pub params: ParamsView,
}

impl View for Publication {
    type V = PublicationView;

    open spec fn view(&self) -> PublicationView {
        PublicationView { subject: self.subject@, params: self.params@ }
    }
}

/// How a delta is published for the observer at `resource_id`.
///
/// A new contact is appended to the observer's contact collection. A removal
/// goes to the same collection and names the slot. A change is set directly
/// on the slot.
pub open spec fn published(resource_id: Seq<char>, delta: DeltaView) -> PublicationView {
    match delta {
        DeltaView::Add(c) => PublicationView {
            subject: subject_of(RequestView::New(contacts_rid_spec(resource_id))),
            params: ParamsView::Contact(c),
        },
        DeltaView::Remove(slot) => PublicationView {
            subject: subject_of(RequestView::Delete(contacts_rid_spec(resource_id))),
            params: ParamsView::Rid(dotted(slot)),
        },
        DeltaView::Change(slot, c) => PublicationView {
            subject: subject_of(RequestView::SetValue(slot)),
            params: ParamsView::Contact(c),
        },
    }
}

/// `published` with the observer fixed.
pub open spec fn published_for(resource_id: Seq<char>) -> spec_fn(DeltaView) -> PublicationView {
    |d: DeltaView| published(resource_id, d)
}

/// The views of a run of publications.
pub open spec fn publication_views(p: Seq<Publication>) -> Seq<PublicationView> {
    p.map_values(|x: Publication| x@)
}

/// The message that carries `delta` for the observer at `resource_id`.
pub fn publication(resource_id: &str, delta: &RadarContactDelta) -> (p: Publication)
    ensures
        p@ == published(resource_id@, delta@),
{
    match delta {
        RadarContactDelta::Add(c) => Publication {
            subject: ResProtocolRequest::New(contacts_rid(resource_id)).to_string(),
            params: Params::Contact(c.duplicate()),
        },
        RadarContactDelta::Remove(slot) => Publication {
            subject: ResProtocolRequest::Delete(contacts_rid(resource_id)).to_string(),
            params: Params::Rid(key_to_rid(slot)),
        },
        RadarContactDelta::Change(slot, c) => Publication {
            subject: ResProtocolRequest::SetValue(slot.clone()).to_string(),
            params: Params::Contact(c.duplicate()),
        },
    }
}

/// The messages that carry `deltas`, one each, in the same order.
pub fn publications(resource_id: &str, deltas: &Vec<RadarContactDelta>) -> (out: Vec<Publication>)
    ensures
        publication_views(out@) == delta_views(deltas@).map_values(published_for(resource_id@)),
{
    let ghost wanted = delta_views(deltas@).map_values(published_for(resource_id@));
    let mut out: Vec<Publication> = Vec::new();
    let mut i: usize = 0;
    while i < deltas.len()
        invariant
            i <= deltas.len(),
            wanted == delta_views(deltas@).map_values(published_for(resource_id@)),
            publication_views(out@) == wanted.take(i as int),
        decreases deltas.len() - i,
    {
        let ghost before = publication_views(out@);
        let p = publication(resource_id, &deltas[i]);
        let ghost pv = p@;
        out.push(p);
        assert(publication_views(out@) =~= before.push(pv));
        assert(wanted.take(i + 1) =~= wanted.take(i as int).push(wanted[i as int]));
        i += 1;
    }
    assert(wanted.take(deltas.len() as int) =~= wanted);
    out
}

/// What one frame asks of the outside world: the messages to publish, in
/// order, and the entities to evict from the position cache.
#[derive(Clone, Debug, PartialEq)]
pub struct FrameOutcome {
    pub publications: Vec<Publication>,
    pub evicted: Vec<String>,
}

/// The work of one frame for an observer: one pass over the sightings
/// against the observer's previous contacts, each delta made ready for the
/// bus, and the list of entities that leave the position cache.
pub fn handle_frame(frame: &EntityFrame, old_contacts: &ContactBook, sightings: &Vec<Sighting>) -> (out:
    FrameOutcome)
    ensures
        publication_views(out.publications@) == pass_deltas(
            frame.entity_id@,
            frame.shard@,
            old_contacts@,
            sighting_views(sightings@),
        ).map_values(published_for(entity_rid_spec(frame.shard@, frame.entity_id@))),
        views(out.evicted@) == pass_evictions(
            frame.entity_id@,
            old_contacts@,
            sighting_views(sightings@),
        ),
{
    let resource_id = entity_rid(&frame.shard, &frame.entity_id);
    let deltas = radar_updates(&frame.entity_id, &frame.shard, old_contacts, sightings);
    let evicted = radar_evictions(&frame.entity_id, old_contacts, sightings);
    FrameOutcome { publications: publications(&resource_id, &deltas), evicted }
}

/// Whether a batch of publish attempts counts as a success: it does exactly
/// if every attempt succeeded. Nothing is rolled back after a failure.
pub fn batch_outcome(published_ok: &Vec<bool>) -> (r: Result<(), RadarError>)
    ensures
        match r {
            Ok(_) => forall|i: int| 0 <= i < published_ok.len() ==> published_ok[i],
            Err(e) => e == RadarError::PublishFailure && exists|i: int|
                0 <= i < published_ok.len() && !published_ok[i],
        },
{
    let mut i: usize = 0;
    while i < published_ok.len()
        invariant
            i <= published_ok.len(),
            forall|j: int| 0 <= j < i ==> published_ok[j],
        decreases published_ok.len() - i,
    {
        if !published_ok[i] {
            return Err(RadarError::PublishFailure);
        }
        i += 1;
    }
    Ok(())
}

} // verus!
