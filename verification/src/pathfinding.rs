//! The movement commitment system: per NPC, one committed next-step
//! direction toward the player's last recorded coordinate, recomputed from
//! a shortest-path distance map only when the scheduler asks.

use vstd::prelude::*;
use crate::geom::CardinalDirection;
use crate::geom::Coord;
use crate::geom::Size;
use crate::world::EntityId;
use crate::world::World;
use crate::world::WorldV;

verus! {

/// Distance-map entry of an unreachable cell.
pub const DIST_INF: u32 = 0xffff_ffff;

/// `b` is one cardinal step away from `a`.
pub open spec fn cardinal_neighbor(a: Coord, b: Coord) -> bool {
    ||| b == CardinalDirection::North.step_spec(a)
    ||| b == CardinalDirection::East.step_spec(a)
    ||| b == CardinalDirection::South.step_spec(a)
    ||| b == CardinalDirection::West.step_spec(a)
}

/// A path may step from `a` into `b`: one cardinal step into a cell that a
/// mover could enter.
pub open spec fn step_ok(w: WorldV, a: Coord, b: Coord) -> bool {
    &&& cardinal_neighbor(a, b)
    &&& !w.blocked_at(b)
}

/// There is a path of at most `n` steps from `a` to `t` over enterable
/// cells. The starting cell itself need not be enterable.
pub open spec fn has_path(w: WorldV, a: Coord, t: Coord, n: nat) -> bool
    decreases n,
{
    if a == t {
        true
    } else if n == 0 {
        false
    } else {
        exists|b: Coord| step_ok(w, a, b) && has_path(w, b, t, (n - 1) as nat)
    }
}

/// `dm` is the shortest-path distance map toward `t` over `w`: a finite
/// entry is the exact length of a shortest path from that cell, and `DIST_INF`
/// means no path of at most `area` steps exists.
pub open spec fn dist_ok(w: WorldV, t: Coord, dm: Seq<u32>) -> bool {
    &&& dm.len() == w.size.area()
    &&& forall|i: int|
        0 <= i < dm.len() && #[trigger] dm[i] != DIST_INF ==> has_path(
            w,
            w.size.coord_of_index(i),
            t,
            dm[i] as nat,
        )
    &&& forall|i: int| 0 <= i < dm.len() ==> #[trigger] dm[i] == DIST_INF || dm[i] <= w.size.area()
    &&& forall|i: int, n: int|
        0 <= i < dm.len() && 0 <= n <= w.size.area() && n < dm[i] ==> !(#[trigger] has_path(
            w,
            w.size.coord_of_index(i),
            t,
            n as nat,
        ))
}

/// Whether stepping `d` from `npc` lands on an enterable cell exactly one
/// step closer to the target, per `dm`.
pub open spec fn good_step(w: WorldV, dm: Seq<u32>, npc: Coord, d: CardinalDirection) -> bool {
    let b = d.step_spec(npc);
    &&& !w.blocked_at(b)
    &&& dm[w.size.index_of(b)] as int == dm[w.size.index_of(npc)] - 1
}

/// The committed direction for an NPC at `npc`: the first direction, in
/// north-east-south-west order, whose step decreases the shortest-path
/// distance to the target; absent when the target is unreachable or
/// already reached.
pub open spec fn choose_dir(w: WorldV, dm: Seq<u32>, npc: Coord) -> Option<CardinalDirection> {
    if dm[w.size.index_of(npc)] == DIST_INF {
        None
    } else if good_step(w, dm, npc, CardinalDirection::North) {
        Some(CardinalDirection::North)
    } else if good_step(w, dm, npc, CardinalDirection::East) {
        Some(CardinalDirection::East)
    } else if good_step(w, dm, npc, CardinalDirection::South) {
        Some(CardinalDirection::South)
    } else if good_step(w, dm, npc, CardinalDirection::West) {
        Some(CardinalDirection::West)
    } else {
        None
    }
}

/// The commitment entry of `id` in a commitment table, absent when the
/// table does not reach `id`.
pub open spec fn commitment_of(s: Seq<Option<CardinalDirection>>, id: EntityId) -> Option<
    CardinalDirection,
> {
    if (id as int) < s.len() {
        s[id as int]
    } else {
        None
    }
}

/// `s` padded with absent entries up to length `n`.
pub open spec fn padded(s: Seq<Option<CardinalDirection>>, n: int) -> Seq<
    Option<CardinalDirection>,
> {
    if s.len() >= n {
        s
    } else {
        s + Seq::new((n - s.len()) as nat, |k: int| None::<CardinalDirection>)
    }
}

/// The committed (id, direction) pairs of a commitment table, in
/// increasing id order.
pub open spec fn committed_of(s: Seq<Option<CardinalDirection>>) -> Seq<
    (EntityId, CardinalDirection),
>
    decreases s.len(),
{
    if s.len() == 0 {
        Seq::empty()
    } else {
        committed_of(s.drop_last()) + (match s.last() {
            Some(d) => seq![(((s.len() - 1) as EntityId), d)],
            None => Seq::empty(),
        })
    }
}

/// Read-only per-cell view of which cells some NPC is committed to step
/// into.
pub struct CommitmentGrid {
    pub size: Size,
    pub cells: Vec<bool>,
}

/// The movement commitment state for one level.
pub struct PathfindingContext {
    pub size: Size,
    pub player_coord: Coord,
    pub distance_map: Vec<u32>,
    pub commitments: Vec<Option<CardinalDirection>>,
}

impl PathfindingContext {
    pub open spec fn wf(self) -> bool {
        &&& self.size.wf()
        &&& self.distance_map@.len() == self.size.area()
    }

    /// The stored distance map is the shortest-path map toward the stored
    /// player coordinate over `w`.
    pub open spec fn synced(self, w: WorldV) -> bool {
        &&& w.size == self.size
        &&& dist_ok(w, self.player_coord, self.distance_map@)
    }

    /// A fresh context with no target and no commitments.
    pub fn new(size: Size) -> (r: PathfindingContext)
        requires
            size.wf(),
        ensures
            r.wf(),
            r.size == size,
            r.commitments@.len() == 0,
    {
        let count = size.cell_count();
        let mut dm: Vec<u32> = Vec::new();
        let mut i: usize = 0;
        while i < count
            invariant
                i <= count,
                dm@.len() == i,
            decreases count - i,
        {
            dm.push(DIST_INF);
            i += 1;
        }
        PathfindingContext {
            size,
            player_coord: Coord { x: 0, y: 0 },
            distance_map: dm,
            commitments: Vec::new(),
        }
    }

    /// Records the player's coordinate as the target and recomputes the
    /// shortest-path distance map toward it over the world as it stands.
    pub fn update_player_coord(&mut self, coord: Coord, world: &World)
        requires
            old(self).wf(),
            world@.wf(),
            old(self).size == world@.size,
            world@.size.contains(coord),
        ensures
            final(self).wf(),
            final(self).size == old(self).size,
            final(self).player_coord == coord,
            final(self).commitments@ == old(self).commitments@,
            final(self).synced(world@),
    {
        self.player_coord = coord;
        let dm = compute_distance_map(world, coord);
        self.distance_map = dm;
    }

    /// Recomputes `id`'s commitment from the distance map: the first step
    /// of a shortest path toward the stored player coordinate, or absent
    /// when no path exists or the NPC already stands on the target.
    pub fn commit_to_moving_towards_player(&mut self, id: EntityId, world: &World)
        requires
            old(self).wf(),
            world@.wf(),
            world@.valid_id(id),
            old(self).synced(world@),
            id < 0x1000_0000,
        ensures
            final(self).wf(),
            final(self).size == old(self).size,
            final(self).player_coord == old(self).player_coord,
            final(self).distance_map == old(self).distance_map,
            final(self).synced(world@),
            final(self).commitments@ == padded(old(self).commitments@, id as int + 1).update(
                id as int,
                choose_dir(world@, old(self).distance_map@, world@.entity_of(id).coord),
            ),
            commitment_of(final(self).commitments@, id) == choose_dir(
                world@,
                old(self).distance_map@,
                world@.entity_of(id).coord,
            ),
            forall|o: EntityId|
                o != id ==> commitment_of(final(self).commitments@, o) == commitment_of(
                    old(self).commitments@,
                    o,
                ),
    {
        let ghost orig = self.commitments@;
        while self.commitments.len() <= id as usize
            invariant
                self.commitments@.len() >= orig.len(),
                orig.len() > id as int ==> self.commitments@ == orig,
                orig.len() <= id as int ==> self.commitments@.len() <= id as int + 1,
                self.commitments@ == padded(orig, self.commitments@.len() as int),
                self.size == old(self).size,
                self.player_coord == old(self).player_coord,
                self.distance_map == old(self).distance_map,
            decreases id as int + 1 - self.commitments@.len(),
        {
            self.commitments.push(None);
            proof {
                assert(self.commitments@ =~= padded(orig, self.commitments@.len() as int));
            }
        }
        proof {
            if orig.len() > id as int {
                assert(self.commitments@ == padded(orig, id as int + 1));
            } else {
                assert(self.commitments@.len() == id as int + 1);
                assert(self.commitments@ == padded(orig, id as int + 1));
            }
        }
        let npc = self.entity_coord(world, id);
        let v = self.choose_dir_exec(world, npc);
        let slot = &mut self.commitments[id as usize];
        *slot = v;
    }

    /// The coordinate of the live entity `id`.
    fn entity_coord(&self, world: &World, id: EntityId) -> (r: Coord)
        requires
            world@.wf(),
            world@.valid_id(id),
        ensures
            r == world@.entity_of(id).coord,
    {
        world.entity(id).coord
    }

    /// The first direction, in north-east-south-west order, whose step
    /// decreases the distance map, per `choose_dir`.
    fn choose_dir_exec(&self, world: &World, npc: Coord) -> (r: Option<CardinalDirection>)
        requires
            self.wf(),
            world@.wf(),
            self.synced(world@),
            world@.size.contains(npc),
        ensures
            r == choose_dir(world@, self.distance_map@, npc),
    {
        proof {
            self.size.lemma_index_of_bounds(npc);
        }
        let ni = self.size.index(npc);
        let here = self.distance_map[ni];
        if here == DIST_INF {
            return None;
        }
        if self.good_step_exec(world, npc, CardinalDirection::North) {
            return Some(CardinalDirection::North);
        }
        if self.good_step_exec(world, npc, CardinalDirection::East) {
            return Some(CardinalDirection::East);
        }
        if self.good_step_exec(world, npc, CardinalDirection::South) {
            return Some(CardinalDirection::South);
        }
        if self.good_step_exec(world, npc, CardinalDirection::West) {
            return Some(CardinalDirection::West);
        }
        None
    }

    /// Whether stepping `d` from `npc` is enterable and one step closer.
    fn good_step_exec(&self, world: &World, npc: Coord, d: CardinalDirection) -> (r: bool)
        requires
            self.wf(),
            world@.wf(),
            self.synced(world@),
            world@.size.contains(npc),
        ensures
            r == good_step(world@, self.distance_map@, npc, d),
    {
        let b = d.step(npc);
        if !self.size.coord_in_bounds(b) {
            return false;
        }
        proof {
            self.size.lemma_index_of_bounds(b);
            self.size.lemma_index_of_bounds(npc);
        }
        let bi = self.size.index(b);
        if world.grid_background_is_wall(bi) {
            return false;
        }
        if world.any_solid_at(b) {
            return false;
        }
        let ni = self.size.index(npc);
        let here = self.distance_map[ni];
        let there = self.distance_map[bi];
        if here == 0 {
            return false;
        }
        (there as u64) == (here as u64) - 1
    }

    /// A snapshot of every committed (id, direction) pair, in increasing
    /// id order.
    pub fn committed_movements(&self) -> (r: Vec<(EntityId, CardinalDirection)>)
        ensures
            r@ == committed_of(self.commitments@),
    {
        let n = self.commitments.len();
        let mut out: Vec<(EntityId, CardinalDirection)> = Vec::new();
        let mut i: usize = 0;
        while i < n
            invariant
                i <= n,
                n == self.commitments@.len(),
                out@ == committed_of(self.commitments@.take(i as int)),
            decreases n - i,
        {
            proof {
                assert(self.commitments@.take(i as int + 1).drop_last() =~= self.commitments@.take(
                    i as int,
                ));
                assert(self.commitments@.take(i as int + 1).last() == self.commitments@[i as int]);
            }
            match self.commitments[i] {
                Some(d) => {
                    out.push((i as EntityId, d));
                    proof {
                        assert(out@ =~= committed_of(self.commitments@.take(i as int + 1)));
                    }
                },
                None => {
                    proof {
                        assert(out@ =~= committed_of(self.commitments@.take(i as int + 1)));
                    }
                },
            }
            i += 1;
        }
        proof {
            assert(self.commitments@.take(n as int) =~= self.commitments@);
        }
        out
    }

    /// The cells some NPC is currently committed to step into, for render
    /// and debug consumption only.
    pub fn commitment_grid(&self, world: &World) -> (r: CommitmentGrid)
        requires
            self.wf(),
            world@.wf(),
            self.size == world@.size,
            forall|id: int|
                0 <= id < self.commitments@.len() && (#[trigger] self.commitments@[id]) is Some
                    ==> id < world@.entities.len(),
        ensures
            r.size == self.size,
            r.cells@.len() == self.size.area(),
            forall|ci: int|
                0 <= ci < r.cells@.len() ==> ((#[trigger] r.cells@[ci]) == exists|id: int|
                    0 <= id < self.commitments@.len() && (#[trigger] self.commitments@[id]) is Some
                        && {
                        let dest = self.commitments@[id].unwrap().step_spec(
                            world@.entities[id].coord,
                        );
                        world@.size.contains(dest) && world@.size.index_of(dest) == ci
                    }),
    {
        let count = self.size.cell_count();
        let mut cells: Vec<bool> = Vec::new();
        let mut i: usize = 0;
        while i < count
            invariant
                i <= count,
                cells@.len() == i,
                forall|k: int| 0 <= k < i ==> (#[trigger] cells@[k]) == false,
            decreases count - i,
        {
            cells.push(false);
            i += 1;
        }
        let n = self.commitments.len();
        let mut id: usize = 0;
        while id < n
            invariant
                id <= n,
                n == self.commitments@.len(),
                world@.wf(),
                self.wf(),
                self.size == world@.size,
                cells@.len() == self.size.area(),
                forall|j: int|
                    0 <= j < n && (#[trigger] self.commitments@[j]) is Some ==> j
                        < world@.entities.len(),
                forall|ci: int|
                    0 <= ci < cells@.len() ==> ((#[trigger] cells@[ci]) == exists|j: int|
                        0 <= j < id && (#[trigger] self.commitments@[j]) is Some && {
                            let dest = self.commitments@[j].unwrap().step_spec(
                                world@.entities[j].coord,
                            );
                            world@.size.contains(dest) && world@.size.index_of(dest) == ci
                        }),
            decreases n - id,
        {
            match self.commitments[id] {
                Some(d) => {
                    let c = world.entity(id as EntityId).coord;
                    proof {
                        assert(world@.size.contains(c));
                    }
                    let dest = d.step(c);
                    if self.size.coord_in_bounds(dest) {
                        proof {
                            self.size.lemma_index_of_bounds(dest);
                        }
                        let di = self.size.index(dest);
                        let slot = &mut cells[di];
                        *slot = true;
                        proof {
                            assert forall|ci: int| 0 <= ci < cells@.len() implies ((
                            #[trigger] cells@[ci]) == exists|j: int|
                                0 <= j < id as int + 1 && (#[trigger] self.commitments@[j])
                                    is Some && {
                                    let dst = self.commitments@[j].unwrap().step_spec(
                                        world@.entities[j].coord,
                                    );
                                    world@.size.contains(dst) && world@.size.index_of(dst) == ci
                                }) by {
                                if ci == di as int {
                                    assert(self.commitments@[id as int] is Some);
                                } else {
                                }
                            }
                        }
                    } else {
                        proof {
                            assert forall|ci: int| 0 <= ci < cells@.len() implies ((
                            #[trigger] cells@[ci]) == exists|j: int|
                                0 <= j < id as int + 1 && (#[trigger] self.commitments@[j])
                                    is Some && {
                                    let dst = self.commitments@[j].unwrap().step_spec(
                                        world@.entities[j].coord,
                                    );
                                    world@.size.contains(dst) && world@.size.index_of(dst) == ci
                                }) by {}
                        }
                    }
                },
                None => {},
            }
            id += 1;
        }
        CommitmentGrid { size: self.size, cells }
    }
}

/// When the distance map is finite and the NPC is not already on the
/// target, some direction strictly decreases the distance, so a commitment
/// is always produced for an NPC that can reach the target.
pub proof fn lemma_choose_dir_complete(w: WorldV, t: Coord, dm: Seq<u32>, npc: Coord)
    requires
        w.wf(),
        dist_ok(w, t, dm),
        w.size.contains(npc),
        npc != t,
        dm[w.size.index_of(npc)] != DIST_INF,
    ensures
        choose_dir(w, dm, npc) is Some,
{
    w.size.lemma_index_of_bounds(npc);
    let ni = w.size.index_of(npc);
    let n = dm[ni] as nat;
    assert(has_path(w, npc, t, n));
    assert(n > 0) by {
        if n == 0 {
            assert(has_path(w, npc, t, 0));
            assert(npc == t);
        }
    }
    let b = choose|b: Coord| step_ok(w, npc, b) && has_path(w, b, t, (n - 1) as nat);
    assert(w.size.contains(b));
    w.size.lemma_index_of_bounds(b);
    let bi = w.size.index_of(b);
    // the step's distance entry is exactly one less
    assert(dm[bi] <= n - 1);
    assert(dm[bi] as int >= n - 1) by {
        if (dm[bi] as int) < n - 1 {
            assert(has_path(w, b, t, dm[bi] as nat));
            assert(has_path(w, npc, t, (dm[bi] + 1) as nat));
            assert(!has_path(w, npc, t, (dm[bi] + 1) as nat));
        }
    }
    assert(dm[bi] as int == n - 1);
    // b is the step of one of the four directions, so that direction is good
    if b == CardinalDirection::North.step_spec(npc) {
        assert(good_step(w, dm, npc, CardinalDirection::North));
    } else if b == CardinalDirection::East.step_spec(npc) {
        assert(good_step(w, dm, npc, CardinalDirection::East));
    } else if b == CardinalDirection::South.step_spec(npc) {
        assert(good_step(w, dm, npc, CardinalDirection::South));
    } else {
        assert(b == CardinalDirection::West.step_spec(npc));
        assert(good_step(w, dm, npc, CardinalDirection::West));
    }
}

/// Computes the shortest-path distance map toward `t` by repeated
/// relaxation over enterable cells, `area` rounds in all.
fn compute_distance_map(world: &World, t: Coord) -> (dm: Vec<u32>)
    requires
        world@.wf(),
        world@.size.contains(t),
    ensures
        dist_ok(world@, t, dm@),
{
    let size = world.size;
    let area = size.cell_count();
    proof {
        size.lemma_index_of_bounds(t);
        assert(size.area() <= 0x4000_0000) by (nonlinear_arith)
            requires
                0 < size.width <= crate::geom::MAX_DIM,
                0 < size.height <= crate::geom::MAX_DIM,
        ;
    }
    let ti = size.index(t);
    let mut dm: Vec<u32> = Vec::new();
    let mut i: usize = 0;
    while i < area
        invariant
            i <= area,
            dm@.len() == i,
            forall|k: int| 0 <= k < i ==> (#[trigger] dm@[k]) == DIST_INF,
        decreases area - i,
    {
        dm.push(DIST_INF);
        i += 1;
    }
    let slot = &mut dm[ti];
    *slot = 0;
    proof {
        assert(has_path(world@, t, t, 0));
        assert(size.coord_of_index(ti as int) == t);
        assert forall|k: int, n: int|
            0 <= k < area && 0 <= n <= 0 && #[trigger] has_path(
                world@,
                size.coord_of_index(k),
                t,
                n as nat,
            ) implies dm@[k] <= n by {
            size.lemma_coord_of_index_bounds(k);
            assert(size.coord_of_index(k) == t);
            size.lemma_index_of_bounds(t);
            assert(k == ti as int);
        }
    }
    let mut round: usize = 0;
    while round < area
        invariant
            world@.wf(),
            size == world@.size,
            world@.size.contains(t),
            area == size.area(),
            area <= 0x4000_0000,
            ti == size.index_of(t),
            dm@.len() == area,
            round <= area,
            dm@[ti as int] == 0,
            forall|k: int|
                0 <= k < area && #[trigger] dm@[k] != DIST_INF ==> has_path(
                    world@,
                    size.coord_of_index(k),
                    t,
                    dm@[k] as nat,
                ),
            forall|k: int|
                0 <= k < area ==> #[trigger] dm@[k] == DIST_INF || dm@[k] <= area,
            forall|k: int, n: int|
                0 <= k < area && 0 <= n <= round && #[trigger] has_path(
                    world@,
                    size.coord_of_index(k),
                    t,
                    n as nat,
                ) ==> dm@[k] <= n,
        decreases area - round,
    {
        let mut ii: usize = 0;
        while ii < area
            invariant
                world@.wf(),
                size == world@.size,
                world@.size.contains(t),
                area == size.area(),
                area <= 0x4000_0000,
                ti == size.index_of(t),
                dm@.len() == area,
                round < area,
                ii <= area,
                dm@[ti as int] == 0,
                forall|k: int|
                    0 <= k < area && #[trigger] dm@[k] != DIST_INF ==> has_path(
                        world@,
                        size.coord_of_index(k),
                        t,
                        dm@[k] as nat,
                    ),
                forall|k: int|
                    0 <= k < area ==> #[trigger] dm@[k] == DIST_INF || dm@[k] <= area,
                forall|k: int, n: int|
                    0 <= k < area && 0 <= n <= round && #[trigger] has_path(
                        world@,
                        size.coord_of_index(k),
                        t,
                        n as nat,
                    ) ==> dm@[k] <= n,
                forall|k: int, n: int|
                    0 <= k < ii && 0 <= n <= round + 1 && #[trigger] has_path(
                        world@,
                        size.coord_of_index(k),
                        t,
                        n as nat,
                    ) ==> dm@[k] <= n,
            decreases area - ii,
        {
            let c = coord_of_index_exec(size, ii);
            let best = best_neighbor(world, &dm, c);
            let ghost pre = dm@;
            if best != DIST_INF {
                let cur = dm[ii];
                if best < area as u32 && best + 1 < cur {
                    let slot = &mut dm[ii];
                    *slot = best + 1;
                }
            }
            proof {
                let cv = size.coord_of_index(ii as int);
                size.lemma_coord_of_index_bounds(ii as int);
                size.lemma_index_of_bounds(t);
                if dm@[ii as int] != pre[ii as int] {
                    // the entry was lowered to `best + 1`; justify it with a path
                    let bb = choose|bb: Coord|
                        step_ok(world@, cv, bb) && world@.size.contains(bb) && pre[world@.size.index_of(bb)] == best;
                    size.lemma_index_of_bounds(bb);
                    assert(has_path(world@, bb, t, best as nat));
                    assert(cv != t) by {
                        if cv == t {
                            assert(ii as int == ti as int);
                        }
                    }
                    assert(has_path(world@, cv, t, (best + 1) as nat));
                }
                // every entry still carries a witnessing path and the size bound
                assert forall|k: int|
                    0 <= k < area && #[trigger] dm@[k] != DIST_INF implies has_path(
                    world@,
                    size.coord_of_index(k),
                    t,
                    dm@[k] as nat,
                ) by {
                    if k != ii as int {
                        assert(dm@[k] == pre[k]);
                    }
                }
                // the processed entry now meets the round's completeness bound
                assert forall|n: int|
                    0 <= n <= round + 1 && #[trigger] has_path(world@, cv, t, n as nat) implies dm@[ii as int]
                    <= n by {
                    if cv == t {
                        assert(dm@[ii as int] == 0) by {
                            size.lemma_index_of_bounds(t);
                            size.lemma_coord_of_index_bounds(ii as int);
                        }
                    } else if n <= round {
                        assert(pre[ii as int] <= n);
                        assert(dm@[ii as int] <= pre[ii as int]);
                    } else if has_path(world@, cv, t, round as nat) {
                        assert(pre[ii as int] <= round);
                        assert(dm@[ii as int] <= pre[ii as int]);
                    } else {
                        // a genuinely new path of length round + 1
                        assert(n == round + 1);
                        assert(n > 0 && cv != t);
                        let b = choose|b: Coord|
                            step_ok(world@, cv, b) && has_path(world@, b, t, (n - 1) as nat);
                        assert(world@.size.contains(b));
                        size.lemma_index_of_bounds(b);
                        let bi = size.index_of(b);
                        assert(has_path(world@, size.coord_of_index(bi), t, round as nat));
                        assert(dm@[bi] <= round);
                        assert(b != cv);
                        assert(bi != ii as int);
                        assert(pre[bi] <= round);
                        assert(best as int <= pre[bi]);
                        assert(dm@[ii as int] <= best + 1);
                    }
                }
                // untouched entries keep all invariants
                assert forall|k: int, n: int|
                    0 <= k < ii && 0 <= n <= round + 1 && #[trigger] has_path(
                        world@,
                        size.coord_of_index(k),
                        t,
                        n as nat,
                    ) implies dm@[k] <= n by {
                    assert(dm@[k] == pre[k]);
                }
            }
            ii += 1;
        }
        round += 1;
    }
    proof {
        assert forall|i2: int, n: int|
            0 <= i2 < dm@.len() && 0 <= n <= world@.size.area() && n < dm@[i2] implies !(
            #[trigger] has_path(world@, world@.size.coord_of_index(i2), t, n as nat)) by {
            if has_path(world@, world@.size.coord_of_index(i2), t, n as nat) {
                assert(dm@[i2] <= n);
            }
        }
    }
    dm
}

/// The in-bounds coordinate with row-major index `i`.
fn coord_of_index_exec(size: Size, i: usize) -> (r: Coord)
    requires
        size.wf(),
        i < size.area(),
    ensures
        r == size.coord_of_index(i as int),
        size.contains(r),
{
    proof {
        size.lemma_coord_of_index_bounds(i as int);
        let w = size.width as int;
        let h = size.height as int;
        assert(0 <= (i as int) % w < w) by (nonlinear_arith)
            requires
                w > 0,
        ;
        assert(0 <= (i as int) / w < h) by (nonlinear_arith)
            requires
                w > 0,
                0 <= i as int,
                (i as int) < w * h,
        ;
    }
    let x = (i as u64 % size.width as u64) as u32;
    let y = (i as u64 / size.width as u64) as u32;
    Coord { x: x as i32, y: y as i32 }
}

/// The smallest distance-map entry among the enterable cardinal neighbors
/// of `c`, or `DIST_INF` when no neighbor is enterable.
fn best_neighbor(world: &World, dm: &Vec<u32>, c: Coord) -> (r: u32)
    requires
        world@.wf(),
        dm@.len() == world@.size.area(),
        world@.size.contains(c),
    ensures
        r == DIST_INF || (exists|b: Coord|
            step_ok(world@, c, b) && #[trigger] world@.size.contains(b)
                && dm@[world@.size.index_of(b)] == r),
        forall|b: Coord|
            step_ok(world@, c, b) && #[trigger] world@.size.contains(b)
                ==> r <= dm@[world@.size.index_of(b)],
{
    let mut best: u32 = DIST_INF;
    let b1 = neighbor_value(world, dm, c, CardinalDirection::North);
    if b1 < best {
        best = b1;
    }
    let b2 = neighbor_value(world, dm, c, CardinalDirection::East);
    if b2 < best {
        best = b2;
    }
    let b3 = neighbor_value(world, dm, c, CardinalDirection::South);
    if b3 < best {
        best = b3;
    }
    let b4 = neighbor_value(world, dm, c, CardinalDirection::West);
    if b4 < best {
        best = b4;
    }
    proof {
        assert forall|b: Coord|
            step_ok(world@, c, b) && #[trigger] world@.size.contains(b) implies best
            <= dm@[world@.size.index_of(b)] by {
            if b == CardinalDirection::North.step_spec(c) {
            } else if b == CardinalDirection::East.step_spec(c) {
            } else if b == CardinalDirection::South.step_spec(c) {
            } else {
                assert(b == CardinalDirection::West.step_spec(c));
            }
        }
    }
    best
}

/// The distance-map entry of the step `d` from `c`, or `DIST_INF` when that
/// step is not enterable.
fn neighbor_value(world: &World, dm: &Vec<u32>, c: Coord, d: CardinalDirection) -> (r: u32)
    requires
        world@.wf(),
        dm@.len() == world@.size.area(),
        world@.size.contains(c),
    ensures
        ({
            let b = d.step_spec(c);
            if !world@.blocked_at(b) {
                world@.size.contains(b) && r == dm@[world@.size.index_of(b)]
            } else {
                r == DIST_INF
            }
        }),
{
    let b = d.step(c);
    if !world.size.coord_in_bounds(b) {
        return DIST_INF;
    }
    proof {
        world.size.lemma_index_of_bounds(b);
    }
    let bi = world.size.index(b);
    if world.grid_background_is_wall(bi) {
        return DIST_INF;
    }
    if world.any_solid_at(b) {
        return DIST_INF;
    }
    dm[bi]
}

} // verus!
