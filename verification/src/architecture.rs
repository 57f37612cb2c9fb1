//! The state of the device: the grid, the droplets on it, and the time-stepped
//! execution of movement plans that keeps unrelated droplets apart.

use std::collections::HashMap;
use vstd::prelude::*;
use vstd::std_specs::hash::*;
use crate::location::Location;
use crate::grid::Grid;
use crate::droplet::Droplet;
use crate::ids::{DropletId, map_keys};
use crate::collision::{
    check_collision, check_destination_collision, collide, conflict, destinations_collide,
    has_collision, has_conflict, has_destination_collision, in_conflict, is_first_conflict,
    precedes,
};
use crate::paths::{
    Path, has_step, droplets_after, droplets_settled, droplets_stepped, max_path_len,
    lemma_step_advances, lemma_all_steps_settle,
};

verus! {

/// What a run of paths reports when it stops early: the timestep after which
/// two droplets collided, and the two.
#[derive(PartialEq, Eq, Structural, Clone, Copy, Debug)]
pub struct StepCollision {
    pub step: usize,
    pub first: DropletId,
    pub second: DropletId,
}

/// The device: its grid, the droplets on it by id, and the counters from which
/// new ids and new collision groups are taken.
#[derive(Debug, Clone)]
pub struct Architecture {
    pub grid: Grid,
    pub droplets: HashMap<DropletId, Droplet>,
    pub next_droplet_id: DropletId,
    pub next_collision_group: usize,
}

impl Architecture {
    /// The id that the next allocation hands out.
    pub open spec fn next_id(&self) -> DropletId {
        self.next_droplet_id
    }

    /// The collision group that the next new droplet gets.
    pub open spec fn next_group(&self) -> usize {
        self.next_collision_group
    }

    /// Every droplet on the device has an id that was allocated.
    pub open spec fn wf(&self) -> bool {
        forall|id: DropletId| #[trigger] self.droplets@.contains_key(id) ==> id < self.next_id()
    }

    /// Whether `paths` moves only droplets that are on the device.
    pub open spec fn knows(&self, paths: Map<DropletId, Path>) -> bool {
        forall|id: DropletId| #[trigger] paths.contains_key(id) ==> self.droplets@.contains_key(id)
    }

    /// An empty device over `grid`, with both counters at zero.
    pub fn from_grid(grid: Grid) -> (arch: Architecture)
        ensures
            arch.wf(),
            arch.grid == grid,
            arch.droplets@ == Map::<DropletId, Droplet>::empty(),
            arch.next_id() == 0,
            arch.next_group() == 0,
    {
        Architecture {
            grid,
            droplets: HashMap::new(),
            next_droplet_id: 0,
            next_collision_group: 0,
        }
    }

    /// Allocates a droplet id: one more than the last, never handed out before.
    pub fn new_droplet_id(&mut self) -> (id: DropletId)
        requires
            old(self).next_id() < usize::MAX,
        ensures
            id == old(self).next_id(),
            final(self).next_id() == id + 1,
            final(self).next_group() == old(self).next_group(),
            final(self).grid == old(self).grid,
            final(self).droplets == old(self).droplets,
            old(self).wf() ==> final(self).wf() && !final(self).droplets@.contains_key(id),
    {
        let id = self.next_droplet_id;
        self.next_droplet_id += 1;
        id
    }

    fn new_collision_group(&mut self) -> (group: usize)
        requires
            old(self).next_group() < usize::MAX,
        ensures
            group == old(self).next_group(),
            final(self).next_group() == group + 1,
            final(self).next_id() == old(self).next_id(),
            final(self).grid == old(self).grid,
            final(self).droplets == old(self).droplets,
    {
        let group = self.next_collision_group;
        self.next_collision_group += 1;
        group
    }

    /// A single-cell droplet at `location` in a collision group of its own. The
    /// droplet is not yet on the device.
    pub fn droplet_from_location(&mut self, location: Location) -> (droplet: Droplet)
        requires
            old(self).next_group() < usize::MAX,
        ensures
            droplet.wf(),
            droplet.location == location,
            droplet.shape@ == seq![crate::location::origin()],
            droplet.destination.is_none(),
            droplet.collision_group == old(self).next_group(),
            final(self).next_group() == old(self).next_group() + 1,
            final(self).next_id() == old(self).next_id(),
            final(self).grid == old(self).grid,
            final(self).droplets == old(self).droplets,
            old(self).wf() ==> final(self).wf(),
    {
        let mut droplet = Droplet::from_location(location);
        droplet.collision_group = self.new_collision_group();
        droplet
    }

    /// Puts `droplet` on the device under `id`, which must have been allocated
    /// and must not be in use.
    pub fn instantiate_droplet(&mut self, id: DropletId, droplet: Droplet)
        requires
            id < old(self).next_id(),
            !old(self).droplets@.contains_key(id),
        ensures
            final(self).droplets@ == old(self).droplets@.insert(id, droplet),
            final(self).next_id() == old(self).next_id(),
            final(self).next_group() == old(self).next_group(),
            final(self).grid == old(self).grid,
            old(self).wf() ==> final(self).wf(),
    {
        broadcast use group_hash_axioms;

        self.droplets.insert(id, droplet);
    }

    fn find_conflict(&self, by_destination: bool) -> (pair: Option<(DropletId, DropletId)>)
        ensures
            pair.is_some() == has_conflict(self.grid, self.droplets@, by_destination),
            pair matches Some(found) ==> is_first_conflict(
                self.grid,
                self.droplets@,
                by_destination,
                found,
            ),
    {
        broadcast use group_hash_axioms;

        let ids = map_keys(&self.droplets);
        let mut best: Option<(DropletId, DropletId)> = None;
        let mut i: usize = 0;
        while i < ids.len()
            invariant
                i <= ids.len(),
                ids@.no_duplicates(),
                forall|id: usize| #[trigger] ids@.contains(id) <==> self.droplets@.contains_key(id),
                best matches Some(found) ==> in_conflict(
                    self.grid,
                    self.droplets@,
                    by_destination,
                    found,
                ),
                forall|a: int, b: int|
                    0 <= a < i && 0 <= b < ids.len() && in_conflict(
                        self.grid,
                        self.droplets@,
                        by_destination,
                        (#[trigger] ids@[a], #[trigger] ids@[b]),
                    ) ==> best.is_some() && precedes(best.unwrap(), (ids@[a], ids@[b])),
            decreases ids.len() - i,
        {
            let id1 = ids[i];
            assert(ids@.contains(ids@[i as int]));
            let mut j: usize = 0;
            while j < ids.len()
                invariant
                    i < ids.len(),
                    j <= ids.len(),
                    id1 == ids@[i as int],
                    self.droplets@.contains_key(id1),
                    ids@.no_duplicates(),
                    forall|id: usize|
                        #[trigger] ids@.contains(id) <==> self.droplets@.contains_key(id),
                    best matches Some(found) ==> in_conflict(
                        self.grid,
                        self.droplets@,
                        by_destination,
                        found,
                    ),
                    forall|a: int, b: int|
                        0 <= a < i && 0 <= b < ids.len() && in_conflict(
                            self.grid,
                            self.droplets@,
                            by_destination,
                            (#[trigger] ids@[a], #[trigger] ids@[b]),
                        ) ==> best.is_some() && precedes(best.unwrap(), (ids@[a], ids@[b])),
                    forall|b: int|
                        0 <= b < j && in_conflict(
                            self.grid,
                            self.droplets@,
                            by_destination,
                            (id1, #[trigger] ids@[b]),
                        ) ==> best.is_some() && precedes(best.unwrap(), (id1, ids@[b])),
                decreases ids.len() - j,
            {
                let id2 = ids[j];
                assert(ids@.contains(ids@[j as int]));
                if id1 != id2 {
                    match (self.droplets.get(&id1), self.droplets.get(&id2)) {
                        (Some(droplet1), Some(droplet2)) => {
                            let hit = if by_destination {
                                check_destination_collision(&self.grid, droplet1, droplet2)
                            } else {
                                check_collision(&self.grid, droplet1, droplet2)
                            };
                            if hit {
                                let earlier = match best {
                                    Some((a, b)) => id1 < a || (id1 == a && id2 < b),
                                    None => true,
                                };
                                if earlier {
                                    best = Some((id1, id2));
                                }
                            }
                        },
                        _ => {},
                    }
                }
                j += 1;
            }
            i += 1;
        }
        proof {
            assert forall|other: (DropletId, DropletId)| #[trigger]
                in_conflict(self.grid, self.droplets@, by_destination, other) implies best.is_some()
                && precedes(best.unwrap(), other) by {
                assert(ids@.contains(other.0));
                assert(ids@.contains(other.1));
                let ia = choose|k: int| 0 <= k < ids@.len() && ids@[k] == other.0;
                let ib = choose|k: int| 0 <= k < ids@.len() && ids@[k] == other.1;
                assert(in_conflict(self.grid, self.droplets@, by_destination, (ids@[ia], ids@[ib])));
            }
            if has_conflict(self.grid, self.droplets@, by_destination) {
                let (a, b) = choose|a: DropletId, b: DropletId|
                    #![trigger self.droplets@.contains_key(a), self.droplets@.contains_key(b)]
                    self.droplets@.contains_key(a) && self.droplets@.contains_key(b) && a != b
                        && conflict(
                        self.grid,
                        self.droplets@[a],
                        self.droplets@[b],
                        by_destination,
                    );
                assert(in_conflict(self.grid, self.droplets@, by_destination, (a, b)));
                assert(best.is_some());
            }
            if let Some(found) = best {
                assert(self.droplets@.contains_key(found.0) && self.droplets@.contains_key(found.1));
                assert(has_conflict(self.grid, self.droplets@, by_destination));
            }
        }
        best
    }

    /// Looks for two droplets that collide: two distinct droplets of different
    /// collision groups whose one-cell-dilated footprints share a cell of the
    /// grid. Of several such pairs the one with the smallest first id is
    /// returned, and of those the one with the smallest second id, whatever the
    /// order in which the droplets were put on the device.
    pub fn get_collision(&self) -> (pair: Option<(DropletId, DropletId)>)
        ensures
            pair.is_some() == has_collision(self.grid, self.droplets@),
            pair matches Some(found) ==> is_first_conflict(self.grid, self.droplets@, false, found),
            pair matches Some((a, b)) ==> self.droplets@.contains_key(a) && self.droplets@.contains_key(
                b,
            ) && a != b && self.droplets@[a].collision_group != self.droplets@[b].collision_group
                && collide(self.grid, self.droplets@[a], self.droplets@[b]),
    {
        self.find_conflict(false)
    }

    /// Looks for two droplets whose destinations collide: two distinct droplets
    /// of different collision groups, both with a destination, the second's
    /// being a cell of the grid in the 3×3 block around the first's. Of several
    /// such pairs the one with the smallest first id is returned, and of those
    /// the one with the smallest second id.
    pub fn get_destination_collision(&self) -> (pair: Option<(DropletId, DropletId)>)
        ensures
            pair.is_some() == has_destination_collision(self.grid, self.droplets@),
            pair matches Some(found) ==> is_first_conflict(self.grid, self.droplets@, true, found),
            pair matches Some((a, b)) ==> self.droplets@.contains_key(a) && self.droplets@.contains_key(
                b,
            ) && a != b && self.droplets@[a].collision_group != self.droplets@[b].collision_group
                && destinations_collide(self.grid, self.droplets@[a], self.droplets@[b]),
    {
        self.find_conflict(true)
    }

    /// Moves every droplet whose path has an entry for timestep `i` to that
    /// entry. The other droplets stay where they are.
    pub fn apply_timestep(&mut self, paths: &HashMap<DropletId, Path>, i: usize)
        requires
            old(self).knows(paths@),
        ensures
            final(self).droplets@ == droplets_stepped(old(self).droplets@, paths@, i as int),
            final(self).grid == old(self).grid,
            final(self).next_id() == old(self).next_id(),
            final(self).next_group() == old(self).next_group(),
            old(self).wf() ==> final(self).wf(),
    {
        broadcast use group_hash_axioms;

        let ghost before = self.droplets@;
        let ids = map_keys(paths);
        let mut k: usize = 0;
        while k < ids.len()
            invariant
                k <= ids.len(),
                ids@.no_duplicates(),
                forall|id: usize| #[trigger] ids@.contains(id) <==> paths@.contains_key(id),
                forall|id: DropletId| #[trigger]
                    paths@.contains_key(id) ==> before.contains_key(id),
                self.grid == old(self).grid,
                self.next_droplet_id == old(self).next_droplet_id,
                self.next_collision_group == old(self).next_collision_group,
                self.droplets@.dom() == before.dom(),
                forall|id: DropletId| #[trigger]
                    before.contains_key(id) ==> self.droplets@[id] == if ids@.take(
                        k as int,
                    ).contains(id) {
                        droplets_stepped(before, paths@, i as int)[id]
                    } else {
                        before[id]
                    },
            decreases ids.len() - k,
        {
            let id = ids[k];
            let ghost held = self.droplets@;
            assert(ids@.contains(ids@[k as int]));
            assert(!ids@.take(k as int).contains(id));
            match paths.get(&id) {
                Some(path) => {
                    if i < path.len() {
                        let target = path[i];
                        match self.droplets.remove(&id) {
                            Some(droplet) => {
                                let mut droplet = droplet;
                                droplet.location = target;
                                self.droplets.insert(id, droplet);
                            },
                            None => {},
                        }
                    }
                },
                None => {},
            }
            proof {
                let done = ids@.take(k as int);
                let next = ids@.take(k + 1);
                assert(next =~= done.push(id));
                assert(self.droplets@.dom() =~= before.dom());
                assert forall|other: DropletId| #[trigger] before.contains_key(other) implies self.droplets@[other]
                    == if next.contains(other) {
                    droplets_stepped(before, paths@, i as int)[other]
                } else {
                    before[other]
                } by {
                    if other == id {
                        assert(next[k as int] == id);
                    } else {
                        assert(self.droplets@[other] == held[other]);
                        if done.contains(other) {
                            let j = choose|j: int| 0 <= j < done.len() && done[j] == other;
                            assert(next[j] == other);
                        }
                        if next.contains(other) {
                            let j = choose|j: int| 0 <= j < next.len() && next[j] == other;
                            assert(done[j] == other);
                        }
                    }
                }
            }
            k += 1;
        }
        proof {
            assert(ids@.take(ids.len() as int) =~= ids@);
            assert(self.droplets@ =~= droplets_stepped(before, paths@, i as int));
        }
    }

    /// Runs timestep `i`: moves the droplets, then looks for a collision among
    /// them as they now stand.
    pub fn step(&mut self, paths: &HashMap<DropletId, Path>, i: usize) -> (pair: Option<
        (DropletId, DropletId),
    >)
        requires
            old(self).knows(paths@),
        ensures
            final(self).droplets@ == droplets_stepped(old(self).droplets@, paths@, i as int),
            final(self).grid == old(self).grid,
            final(self).next_id() == old(self).next_id(),
            final(self).next_group() == old(self).next_group(),
            old(self).wf() ==> final(self).wf(),
            pair.is_some() == has_collision(final(self).grid, final(self).droplets@),
            pair matches Some(found) ==> is_first_conflict(
                final(self).grid,
                final(self).droplets@,
                false,
                found,
            ),
    {
        self.apply_timestep(paths, i);
        self.get_collision()
    }

    /// Runs every timestep of `paths` in turn, for a caller that holds the
    /// device for the whole run. After each timestep the droplets are checked;
    /// the run stops after the first timestep that leaves two of them in
    /// collision, and reports it. Otherwise every droplet ends at the last entry
    /// of its path, or where it was if its path is empty or absent.
    pub fn take_paths(&mut self, paths: &HashMap<DropletId, Path>) -> (result: Result<
        (),
        StepCollision,
    >)
        requires
            old(self).knows(paths@),
        ensures
            final(self).grid == old(self).grid,
            final(self).next_id() == old(self).next_id(),
            final(self).next_group() == old(self).next_group(),
            old(self).wf() ==> final(self).wf(),
            result.is_err() <==> exists|i: int|
                has_step(paths@, i) && has_collision(
                    old(self).grid,
                    #[trigger] droplets_after(old(self).droplets@, paths@, i + 1),
                ),
            result.is_ok() ==> final(self).droplets@ == droplets_settled(
                old(self).droplets@,
                paths@,
            ),
            result.is_ok() && has_step(paths@, 0) ==> !has_collision(
                final(self).grid,
                final(self).droplets@,
            ),
            result matches Err(e) ==> {
                &&& has_step(paths@, e.step as int)
                &&& forall|i: int|
                    0 <= i < e.step ==> !has_collision(
                        old(self).grid,
                        #[trigger] droplets_after(old(self).droplets@, paths@, i + 1),
                    )
                &&& final(self).droplets@ == droplets_after(
                    old(self).droplets@,
                    paths@,
                    e.step + 1,
                )
                &&& is_first_conflict(
                    final(self).grid,
                    final(self).droplets@,
                    false,
                    (e.first, e.second),
                )
            },
    {
        let steps = max_path_len(paths);
        let ghost start = self.droplets@;
        let ghost grid = self.grid;
        let mut i: usize = 0;
        proof {
            assert(self.droplets@ =~= droplets_after(start, paths@, 0));
        }
        while i < steps
            invariant
                i <= steps,
                forall|t: int| has_step(paths@, t) <==> 0 <= t < steps,
                forall|id: DropletId| #[trigger] paths@.contains_key(id) ==> start.contains_key(id),
                self.droplets@ == droplets_after(start, paths@, i as int),
                start == old(self).droplets@,
                grid == old(self).grid,
                self.grid == grid,
                self.next_droplet_id == old(self).next_droplet_id,
                self.next_collision_group == old(self).next_collision_group,
                old(self).wf() ==> self.wf(),
                forall|t: int|
                    0 <= t < i ==> !has_collision(
                        grid,
                        #[trigger] droplets_after(start, paths@, t + 1),
                    ),
            decreases steps - i,
        {
            proof {
                lemma_step_advances(start, paths@, i as int);
            }
            match self.step(paths, i) {
                Some((first, second)) => {
                    assert(has_step(paths@, i as int));
                    assert(has_collision(grid, droplets_after(start, paths@, i + 1)));
                    return Err(StepCollision { step: i, first, second });
                },
                None => {},
            }
            i += 1;
        }
        proof {
            assert forall|id: DropletId| #[trigger] paths@.contains_key(id) implies paths@[id]@.len()
                <= steps by {
                if paths@[id]@.len() > steps {
                    assert(has_step(paths@, steps as int));
                }
            }
            lemma_all_steps_settle(start, paths@, steps as int);
            if steps > 0 {
                assert(!has_collision(grid, droplets_after(start, paths@, (steps - 1) + 1)));
            }
        }
        Ok(())
    }
}

} // verus!
