//! Movement plans: one path per droplet, followed one entry per timestep.

use std::collections::HashMap;
use vstd::prelude::*;
use vstd::std_specs::hash::*;
use crate::location::Location;
use crate::droplet::Droplet;
use crate::ids::{DropletId, map_keys};

verus! {

/// Where a droplet is to be after each timestep, first step first.
pub type Path = Vec<Location>;

/// Whether timestep `i` exists: whether some path has an entry for it.
pub open spec fn has_step(paths: Map<DropletId, Path>, i: int) -> bool {
    exists|id: DropletId| #[trigger] paths.contains_key(id) && 0 <= i < paths[id]@.len()
}

/// Where a droplet that started at `start` is after the first `steps` timesteps
/// of `path`: at the entry of the last of them, as far as the path reaches; a
/// droplet whose path has ended stays at its last entry.
pub open spec fn position_after(start: Location, path: Seq<Location>, steps: int) -> Location {
    if steps <= 0 || path.len() == 0 {
        start
    } else if steps <= path.len() {
        path[steps - 1]
    } else {
        path[path.len() - 1]
    }
}

/// The droplets after the first `steps` timesteps of `paths`. Droplets without
/// a path stay; nothing but locations changes.
pub open spec fn droplets_after(
    start: Map<DropletId, Droplet>,
    paths: Map<DropletId, Path>,
    steps: int,
) -> Map<DropletId, Droplet> {
    Map::new(
        |id: DropletId| start.contains_key(id),
        |id: DropletId|
            if paths.contains_key(id) {
                Droplet {
                    location: position_after(start[id].location, paths[id]@, steps),
                    ..start[id]
                }
            } else {
                start[id]
            },
    )
}

/// The droplets once every path has been followed to its end: each droplet
/// with a non-empty path is at that path's last entry, every other where it was.
pub open spec fn droplets_settled(
    start: Map<DropletId, Droplet>,
    paths: Map<DropletId, Path>,
) -> Map<DropletId, Droplet> {
    Map::new(
        |id: DropletId| start.contains_key(id),
        |id: DropletId|
            if paths.contains_key(id) && paths[id]@.len() > 0 {
                Droplet { location: paths[id]@.last(), ..start[id] }
            } else {
                start[id]
            },
    )
}

/// The droplets after timestep `i` alone is applied to `before`: each droplet
/// whose path has an entry `i` is there, every other where it was.
pub open spec fn droplets_stepped(
    before: Map<DropletId, Droplet>,
    paths: Map<DropletId, Path>,
    i: int,
) -> Map<DropletId, Droplet> {
    Map::new(
        |id: DropletId| before.contains_key(id),
        |id: DropletId|
            if paths.contains_key(id) && 0 <= i < paths[id]@.len() {
                Droplet { location: paths[id]@[i], ..before[id] }
            } else {
                before[id]
            },
    )
}

/// Applying timestep `i` to the droplets as they are after `i` timesteps gives
/// the droplets as they are after `i + 1` timesteps.
pub proof fn lemma_step_advances(
    start: Map<DropletId, Droplet>,
    paths: Map<DropletId, Path>,
    i: int,
)
    requires
        0 <= i,
    ensures
        droplets_stepped(droplets_after(start, paths, i), paths, i) == droplets_after(
            start,
            paths,
            i + 1,
        ),
{
    assert(droplets_stepped(droplets_after(start, paths, i), paths, i) =~= droplets_after(
        start,
        paths,
        i + 1,
    ));
}

/// Once as many timesteps have run as the longest path has entries, every
/// droplet is at the last entry of its path, or where it started if its path
/// is empty or absent.
pub proof fn lemma_all_steps_settle(
    start: Map<DropletId, Droplet>,
    paths: Map<DropletId, Path>,
    steps: int,
)
    requires
        forall|id: DropletId| #[trigger] paths.contains_key(id) ==> paths[id]@.len() <= steps,
    ensures
        droplets_after(start, paths, steps) == droplets_settled(start, paths),
{
    assert(droplets_after(start, paths, steps) =~= droplets_settled(start, paths));
}

/// The number of timesteps of `paths`: the length of its longest path, zero
/// where there is none.
pub fn max_path_len(paths: &HashMap<DropletId, Path>) -> (n: usize)
    ensures
        forall|i: int| has_step(paths@, i) <==> 0 <= i < n,
{
    broadcast use group_hash_axioms;

    let ids = map_keys(paths);
    let mut n: usize = 0;
    let ghost mut longest: DropletId = 0;
    let mut k: usize = 0;
    while k < ids.len()
        invariant
            k <= ids.len(),
            forall|id: usize| #[trigger] ids@.contains(id) <==> paths@.contains_key(id),
            forall|j: int| 0 <= j < k ==> paths@[#[trigger] ids@[j]]@.len() <= n,
            n == 0 || (paths@.contains_key(longest) && paths@[longest]@.len() == n),
        decreases ids.len() - k,
    {
        let id = ids[k];
        assert(ids@.contains(ids@[k as int]));
        match paths.get(&id) {
            Some(path) => {
                if path.len() > n {
                    n = path.len();
                    proof {
                        longest = id;
                    }
                }
            },
            None => {},
        }
        k += 1;
    }
    proof {
        assert forall|i: int| has_step(paths@, i) implies 0 <= i < n by {
            let id = choose|id: DropletId| #[trigger]
                paths@.contains_key(id) && 0 <= i < paths@[id]@.len();
            assert(ids@.contains(id));
            let j = choose|j: int| 0 <= j < ids@.len() && ids@[j] == id;
            assert(paths@[ids@[j]]@.len() <= n);
        }
    }
    n
}

} // verus!
