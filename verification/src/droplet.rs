//! A unit of liquid on the grid.

use vstd::prelude::*;
use crate::location::{Location, origin, copy_locations, distinct_locations};

verus! {

/// A droplet: where its anchor cell is, which cells it covers relative to the
/// anchor, where it is headed, and which droplets it may touch.
#[derive(PartialEq, Eq, Debug, Clone)]
pub struct Droplet {
    pub location: Location,
    /// Offsets of the covered cells from `location`, each listed once.
    pub shape: Vec<Location>,
    pub destination: Option<Location>,
    pub collision_group: usize,
}

/// What a droplet shows to the outside: its anchor, a unit volume and its shape.
#[derive(PartialEq, Eq, Hash, Debug)]
pub struct DropletInfo {
    pub location: Location,
    pub volume: i32,
    pub shape: Vec<Location>,
}

/// The shape of a droplet that covers its anchor cell and nothing else.
pub fn default_shape_factory() -> (shape: Vec<Location>)
    ensures
        shape@ == seq![origin()],
{
    let mut shape: Vec<Location> = Vec::new();
    shape.push(Location { y: 0, x: 0 });
    assert(shape@ =~= seq![origin()]);
    shape
}

impl Droplet {
    /// A droplet is well formed when its shape covers the anchor cell and
    /// lists no offset twice.
    pub open spec fn wf(&self) -> bool {
        self.shape@.contains(origin()) && self.shape@.no_duplicates()
    }

    /// A single-cell droplet at `location`, without destination, in group 0.
    pub fn from_location(location: Location) -> (droplet: Droplet)
        ensures
            droplet.wf(),
            droplet.location == location,
            droplet.shape@ == seq![origin()],
            droplet.destination.is_none(),
            droplet.collision_group == 0,
    {
        let shape = default_shape_factory();
        assert(shape@[0] == origin());
        Droplet { location, shape, destination: None, collision_group: 0 }
    }

    /// A droplet at `location` that covers the offsets of `shape`, without
    /// destination, in group 0. The shape must cover the anchor cell. An offset
    /// given more than once counts once.
    pub fn from_location_and_shape(location: Location, shape: Vec<Location>) -> (droplet: Droplet)
        requires
            shape@.contains(origin()),
        ensures
            droplet.wf(),
            droplet.location == location,
            forall|c: Location| droplet.shape@.contains(c) <==> shape@.contains(c),
            shape@.no_duplicates() ==> droplet.shape@ == shape@,
            droplet.destination.is_none(),
            droplet.collision_group == 0,
    {
        let shape = distinct_locations(&shape);
        Droplet { location, shape, destination: None, collision_group: 0 }
    }

    /// The outward snapshot of the droplet: its anchor, the unit volume, and its
    /// shape in the order in which the droplet holds it.
    pub fn info(&self) -> (info: DropletInfo)
        ensures
            info.location == self.location,
            info.volume == 1,
            info.shape@ == self.shape@,
    {
        DropletInfo { location: self.location, volume: 1, shape: copy_locations(&self.shape) }
    }
}

} // verus!
