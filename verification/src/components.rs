//! The component records that the radar reads and writes, and the plain
//! values that stand for them in contracts.

use vstd::prelude::*;

verus! {

/// An angle in degrees, held as the bit pattern of an IEEE 754 double so that
/// it can be carried and compared exactly. The radar never does arithmetic
/// on it.
#[derive(Clone, Copy, Debug, PartialEq, Eq, Structural)]
pub struct Degrees {
    pub bits: u64,
}

/// The address of a resource on the bus.
#[derive(Clone, Debug, PartialEq)]
pub struct ResourceIdentifier {
    pub rid: String,
}

/// What a `RadarContact` is, as plain values.
pub struct ContactView {
    pub entity_id: Seq<char>,
    pub distance: u32,
    pub distance_xy: u32,
    pub azimuth: Degrees,
    pub elevation: Degrees,
    pub transponder: Seq<char>,
}

/// One nearby entity as an observer sees it. The record is derived: only the
/// radar writes it, into the observer's contact collection, under a slot id
/// that has nothing to do with `entity_id`.
#[derive(Clone, Debug, PartialEq)]
pub struct RadarContact {
    /// The entity that was seen.
    pub entity_id: String,
    /// Rounded straight-line distance.
    pub distance: u32,
    /// Rounded distance in the x/y plane.
    pub distance_xy: u32,
    pub azimuth: Degrees,
    pub elevation: Degrees,
    /// Where the seen entity's transponder lives.
    pub transponder: ResourceIdentifier,
}

impl View for RadarContact {
    type V = ContactView;

    open spec fn view(&self) -> ContactView {
        ContactView {
            entity_id: self.entity_id@,
            distance: self.distance,
            distance_xy: self.distance_xy,
            azimuth: self.azimuth,
            elevation: self.elevation,
            transponder: self.transponder.rid@,
        }
    }
}

impl RadarContact {
    /// An independent copy with the same contents.
    pub fn duplicate(&self) -> (r: RadarContact)
        ensures
            r@ == self@,
    {
        RadarContact {
            entity_id: self.entity_id.clone(),
            distance: self.distance,
            distance_xy: self.distance_xy,
            azimuth: self.azimuth,
            elevation: self.elevation,
            transponder: ResourceIdentifier { rid: self.transponder.rid.clone() },
        }
    }
}

/// How an entity shows up on a radar screen. Its presence in the store marks
/// the entity as discoverable.
#[derive(Clone, Debug, PartialEq)]
pub struct RadarTransponder {
    /// One of "starbase", "ship" or "asteroid".
    pub object_type: String,
    pub display_name: String,
    /// A hex code or a CSS colour name.
    pub color: String,
}

/// A stack of one kind of resource, as it sits in an asteroid or an inventory.
#[derive(Clone, Debug, PartialEq)]
pub struct MiningResource {
    /// "spendy", "tasty" or "critical".
    pub stack_type: String,
    pub qty: u32,
}

/// The credits an entity owns.
#[derive(Debug, PartialEq)]
pub struct CreditWallet {
    pub credits: i32,
}

/// One tick of work for one entity, as the system manager hands it out.
#[derive(Clone, Debug, PartialEq)]
pub struct EntityFrame {
    pub seq_no: u64,
    /// Milliseconds since the previous frame, roughly.
    pub elapsed_ms: u32,
    pub shard: String,
    pub entity_id: String,
}

/// What an `EntityFrame` is, as plain values.
pub struct FrameView {
    pub seq_no: u64,
    pub elapsed_ms: u32,
    pub shard: Seq<char>,
    pub entity_id: Seq<char>,
}

impl View for EntityFrame {
    type V = FrameView;

    open spec fn view(&self) -> FrameView {
        FrameView {
            seq_no: self.seq_no,
            elapsed_ms: self.elapsed_ms,
            shard: self.shard@,
            entity_id: self.entity_id@,
        }
    }
}

/// What a system tells the registry about itself.
#[derive(Clone, Debug, PartialEq)]
pub struct System {
    pub name: String,
    /// Frames per second the system would like to receive.
    pub framerate: u32,
    /// An entity gets frames only if it has all of these components.
    pub components: Vec<String>,
}

} // verus!
