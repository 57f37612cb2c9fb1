//! When two droplets are too close: the rule on footprints, the rule on
//! destinations, and what holds of both.

use vstd::prelude::*;
use crate::location::{Location, intersects, contains_location};
use crate::grid::Grid;
use crate::droplet::Droplet;
use crate::ids::DropletId;

verus! {

/// Two droplets collide when they belong to different collision groups and
/// some cell of the grid lies in the one-cell-dilated footprint of both.
pub open spec fn collide(grid: Grid, a: Droplet, b: Droplet) -> bool {
    a.collision_group != b.collision_group && exists|c: Location|
        #[trigger] grid.in_dilation(c, a.location, a.shape@) && grid.in_dilation(
            c,
            b.location,
            b.shape@,
        )
}

/// The destinations of two droplets collide when the droplets belong to
/// different collision groups, both have a destination, and the destination of
/// `b` is a cell of the grid in the 3×3 block around the destination of `a`.
pub open spec fn destinations_collide(grid: Grid, a: Droplet, b: Droplet) -> bool {
    a.collision_group != b.collision_group && a.destination.is_some() && b.destination.is_some()
        && grid.in_neighbors9(b.destination.unwrap(), a.destination.unwrap())
}

/// The rule a scan applies to an ordered pair of droplets: the one on
/// destinations, or the one on current footprints.
pub open spec fn conflict(grid: Grid, a: Droplet, b: Droplet, by_destination: bool) -> bool {
    if by_destination {
        destinations_collide(grid, a, b)
    } else {
        collide(grid, a, b)
    }
}

/// Whether some two distinct droplets of `droplets` are in conflict.
pub open spec fn has_conflict(
    grid: Grid,
    droplets: Map<DropletId, Droplet>,
    by_destination: bool,
) -> bool {
    exists|a: DropletId, b: DropletId|
        #![trigger droplets.contains_key(a), droplets.contains_key(b)]
        droplets.contains_key(a) && droplets.contains_key(b) && a != b && conflict(
            grid,
            droplets[a],
            droplets[b],
            by_destination,
        )
}

/// Whether `pair` names two distinct droplets of `droplets`, in this order, that
/// are in conflict.
pub open spec fn in_conflict(
    grid: Grid,
    droplets: Map<DropletId, Droplet>,
    by_destination: bool,
    pair: (DropletId, DropletId),
) -> bool {
    droplets.contains_key(pair.0) && droplets.contains_key(pair.1) && pair.0 != pair.1 && conflict(
        grid,
        droplets[pair.0],
        droplets[pair.1],
        by_destination,
    )
}

/// Whether `p` comes no later than `q` when pairs of ids are ordered by their
/// first id, then by their second.
pub open spec fn precedes(p: (DropletId, DropletId), q: (DropletId, DropletId)) -> bool {
    p.0 < q.0 || (p.0 == q.0 && p.1 <= q.1)
}

/// Whether `pair` is in conflict and comes before every other pair that is.
pub open spec fn is_first_conflict(
    grid: Grid,
    droplets: Map<DropletId, Droplet>,
    by_destination: bool,
    pair: (DropletId, DropletId),
) -> bool {
    in_conflict(grid, droplets, by_destination, pair) && forall|other: (DropletId, DropletId)|
        #[trigger] in_conflict(grid, droplets, by_destination, other) ==> precedes(pair, other)
}

/// Whether some two distinct droplets of `droplets` collide.
pub open spec fn has_collision(grid: Grid, droplets: Map<DropletId, Droplet>) -> bool {
    has_conflict(grid, droplets, false)
}

/// Whether the destinations of some two distinct droplets of `droplets` collide.
pub open spec fn has_destination_collision(grid: Grid, droplets: Map<DropletId, Droplet>) -> bool {
    has_conflict(grid, droplets, true)
}

/// Whether droplets `a` and `b` collide on `grid`.
pub fn check_collision(grid: &Grid, a: &Droplet, b: &Droplet) -> (hit: bool)
    ensures
        hit == collide(*grid, *a, *b),
{
    if a.collision_group == b.collision_group {
        return false;
    }
    let around_a = grid.neighbors_shape(&a.location, &a.shape);
    let around_b = grid.neighbors_shape(&b.location, &b.shape);
    let hit = intersects(&around_a, &around_b);
    proof {
        if hit {
            let c = choose|c: Location| around_a@.contains(c) && around_b@.contains(c);
            assert(grid.in_dilation(c, a.location, a.shape@));
        }
        if collide(*grid, *a, *b) {
            let c = choose|c: Location|
                #[trigger] grid.in_dilation(c, a.location, a.shape@) && grid.in_dilation(
                    c,
                    b.location,
                    b.shape@,
                );
            assert(around_a@.contains(c) && around_b@.contains(c));
        }
    }
    hit
}

/// Whether the destinations of droplets `a` and `b` collide on `grid`.
pub fn check_destination_collision(grid: &Grid, a: &Droplet, b: &Droplet) -> (hit: bool)
    ensures
        hit == destinations_collide(*grid, *a, *b),
{
    if a.collision_group == b.collision_group {
        return false;
    }
    match (a.destination, b.destination) {
        (Some(dest_a), Some(dest_b)) => {
            let around = grid.neighbors9(&dest_a);
            contains_location(&around, dest_b)
        },
        _ => false,
    }
}

/// Droplets of one collision group never collide, wherever they are.
pub proof fn lemma_same_group_never_collides(grid: Grid, a: Droplet, b: Droplet)
    requires
        a.collision_group == b.collision_group,
    ensures
        !collide(grid, a, b),
        !destinations_collide(grid, a, b),
{
}

/// Where every two distinct droplets share a collision group or have disjoint
/// one-cell-dilated footprints, there is no collision.
pub proof fn lemma_separated_droplets_do_not_collide(grid: Grid, droplets: Map<DropletId, Droplet>)
    requires
        forall|a: DropletId, b: DropletId|
            #![trigger droplets.contains_key(a), droplets.contains_key(b)]
            droplets.contains_key(a) && droplets.contains_key(b) && a != b ==> droplets[a].collision_group
                == droplets[b].collision_group || grid.dilated(
                droplets[a].location,
                droplets[a].shape@,
            ).disjoint(grid.dilated(droplets[b].location, droplets[b].shape@)),
    ensures
        !has_collision(grid, droplets),
{
    assert forall|a: DropletId, b: DropletId|
        #![trigger droplets.contains_key(a), droplets.contains_key(b)]
        droplets.contains_key(a) && droplets.contains_key(b) && a != b implies !collide(
        grid,
        droplets[a],
        droplets[b],
    ) by {
        let da = droplets[a];
        let db = droplets[b];
        if collide(grid, da, db) {
            let c = choose|c: Location|
                #[trigger] grid.in_dilation(c, da.location, da.shape@) && grid.in_dilation(
                    c,
                    db.location,
                    db.shape@,
                );
            assert(grid.dilated(da.location, da.shape@).contains(c));
            assert(grid.dilated(db.location, db.shape@).contains(c));
        }
    }
}

/// Whether there is a collision does not depend on the order in which two
/// droplets were put on the device.
pub proof fn lemma_collision_ignores_insertion_order(
    grid: Grid,
    droplets: Map<DropletId, Droplet>,
    id1: DropletId,
    d1: Droplet,
    id2: DropletId,
    d2: Droplet,
)
    requires
        id1 != id2,
    ensures
        has_collision(grid, droplets.insert(id1, d1).insert(id2, d2)) == has_collision(
            grid,
            droplets.insert(id2, d2).insert(id1, d1),
        ),
        has_destination_collision(grid, droplets.insert(id1, d1).insert(id2, d2))
            == has_destination_collision(grid, droplets.insert(id2, d2).insert(id1, d1)),
{
    assert(droplets.insert(id1, d1).insert(id2, d2) =~= droplets.insert(id2, d2).insert(id1, d1));
}

/// The droplets and the grid alone decide which pair a scan returns: two pairs
/// that each come before every pair in conflict are the same pair.
pub proof fn lemma_first_conflict_is_unique(
    grid: Grid,
    droplets: Map<DropletId, Droplet>,
    by_destination: bool,
    p: (DropletId, DropletId),
    q: (DropletId, DropletId),
)
    requires
        is_first_conflict(grid, droplets, by_destination, p),
        is_first_conflict(grid, droplets, by_destination, q),
    ensures
        p == q,
{
    assert(precedes(p, q));
    assert(precedes(q, p));
}

} // verus!
