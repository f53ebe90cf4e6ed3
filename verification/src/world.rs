//! The spatial world store: the single source of truth for entity
//! positions, tile identity and per-entity mutable attributes.

use vstd::prelude::*;
use crate::geom::CardinalDirection;
use crate::geom::Coord;
use crate::geom::Size;
use crate::tiles::BackgroundTile;
use crate::tiles::ForegroundTile;
use crate::tiles::HitPoints;

verus! {

/// Stable handle of an entity. Ids are assigned at insertion, in increasing
/// order, and are never reused while the level is live.
pub type EntityId = u64;

/// An addressable game object: a required grid coordinate plus optional
/// tile and attribute data.
#[derive(Clone, Copy, Debug, PartialEq, Eq)]
pub struct Entity {
    pub coord: Coord,
    pub background: Option<BackgroundTile>,
    pub foreground: Option<ForegroundTile>,
    pub hit_points: Option<HitPoints>,
    pub taking_damage_in_direction: Option<CardinalDirection>,
}

/// The minimal attribute subset that carries one entity across a level
/// transition; transient per-level state (coordinate, damage marker, id)
/// is deliberately dropped.
#[derive(Clone, Copy, Debug, PartialEq, Eq)]
pub struct PackedEntity {
    pub background: Option<BackgroundTile>,
    pub foreground: Option<ForegroundTile>,
    pub hit_points: Option<HitPoints>,
}

/// One cell of the level grid: its terrain layer and the unordered set of
/// ids of the entities standing on it.
#[derive(Clone, Debug, PartialEq, Eq)]
pub struct Cell {
    pub background: BackgroundTile,
    pub entity_ids: Vec<EntityId>,
}

/// Mathematical model of a cell.
#[verifier::ext_equal]
pub ghost struct CellV {
    pub background: BackgroundTile,
    pub ids: Seq<EntityId>,
}

/// Mathematical model of the whole store.
#[verifier::ext_equal]
pub ghost struct WorldV {
    pub size: Size,
    pub cells: Seq<CellV>,
    pub entities: Seq<Entity>,
    pub npcs: Seq<EntityId>,
}

/// How a movement request resolved, at the model level.
pub ghost enum MoveOutcome {
    Blocked,
    Attack { victim: EntityId },
    Moved,
}

/// A movement request's resolution: the store afterwards and the outcome.
pub ghost struct MoveStep {
    pub post: WorldV,
    pub outcome: MoveOutcome,
}

/// Why a movement request failed.
#[derive(Clone, Copy, Debug, PartialEq, Eq, Structural)]
pub enum MoveError {
    Blocked,
}

impl Entity {
    /// Whether this entity takes engine turns.
    pub open spec fn is_npc_entity(self) -> bool {
        match self.foreground {
            Some(f) => f.is_npc_spec(),
            None => false,
        }
    }

    /// Whether this entity makes its cell impassable.
    pub open spec fn is_solid_entity(self) -> bool {
        match self.foreground {
            Some(f) => f.is_solid_spec(),
            None => false,
        }
    }

    /// Whether a move into this entity's cell resolves as an attack on it.
    pub open spec fn is_damageable(self) -> bool {
        self.hit_points is Some
    }

    pub fn coord(&self) -> (r: Coord)
        ensures
            r == self.coord,
    {
        self.coord
    }

    pub fn foreground_tile(&self) -> (r: Option<ForegroundTile>)
        ensures
            r == self.foreground,
    {
        self.foreground
    }

    pub fn hit_points(&self) -> (r: Option<HitPoints>)
        ensures
            r == self.hit_points,
    {
        self.hit_points
    }

    pub fn taking_damage_in_direction(&self) -> (r: Option<CardinalDirection>)
        ensures
            r == self.taking_damage_in_direction,
    {
        self.taking_damage_in_direction
    }
}

impl PackedEntity {
    /// The fresh player template: the only damageable entity a new game
    /// starts with.
    pub open spec fn player_spec() -> PackedEntity {
        PackedEntity {
            background: None,
            foreground: Some(ForegroundTile::Player),
            hit_points: Some(HitPoints { num: 10, max: 10 }),
        }
    }

    pub fn player() -> (r: PackedEntity)
        ensures
            r == PackedEntity::player_spec(),
    {
        PackedEntity {
            background: None,
            foreground: Some(ForegroundTile::Player),
            hit_points: Some(HitPoints { num: 10, max: 10 }),
        }
    }

    /// The entity this template denotes once placed at `coord`.
    pub open spec fn place_spec(self, coord: Coord) -> Entity {
        Entity {
            coord,
            background: self.background,
            foreground: self.foreground,
            hit_points: self.hit_points,
            taking_damage_in_direction: None,
        }
    }
}

/// The id of the first damageable entity listed in `ids`, if any.
pub open spec fn first_damageable(ids: Seq<EntityId>, entities: Seq<Entity>) -> Option<EntityId>
    decreases ids.len(),
{
    if ids.len() == 0 {
        None
    } else if entities[ids[0] as int].is_damageable() {
        Some(ids[0])
    } else {
        first_damageable(ids.drop_first(), entities)
    }
}

impl WorldV {
    pub open spec fn valid_id(self, id: EntityId) -> bool {
        (id as int) < self.entities.len()
    }

    pub open spec fn entity_of(self, id: EntityId) -> Entity {
        self.entities[id as int]
    }

    pub open spec fn cell_at(self, c: Coord) -> CellV {
        self.cells[self.size.index_of(c)]
    }

    /// Some entity standing in `c` is solid.
    pub open spec fn solid_at(self, c: Coord) -> bool {
        exists|j: int|
            0 <= j < self.cell_at(c).ids.len() && self.entity_of(
                #[trigger] self.cell_at(c).ids[j],
            ).is_solid_entity()
    }

    /// A move into `c` is rejected outright: out of bounds, a wall, or a
    /// solid entity stands there.
    pub open spec fn blocked_at(self, c: Coord) -> bool {
        ||| !self.size.contains(c)
        ||| self.cell_at(c).background.is_wall_spec()
        ||| self.solid_at(c)
    }

    /// Every entity coordinate lies inside the grid.
    pub open spec fn coords_in_bounds(self) -> bool {
        forall|i: int|
            0 <= i < self.entities.len() ==> self.size.contains(
                (#[trigger] self.entities[i]).coord,
            )
    }

    /// Every live id is listed in the cell of its own coordinate.
    pub open spec fn ids_listed(self) -> bool {
        forall|i: int|
            0 <= i < self.entities.len() ==> self.cells[self.size.index_of(
                (#[trigger] self.entities[i]).coord,
            )].ids.contains(i as EntityId)
    }

    /// Every listed id is live and its cell is the cell of its coordinate.
    pub open spec fn listed_ids_match(self) -> bool {
        forall|ci: int, j: int|
            0 <= ci < self.cells.len() && 0 <= j < self.cells[ci].ids.len() ==> {
                let id = #[trigger] self.cells[ci].ids[j];
                &&& (id as int) < self.entities.len()
                &&& self.size.index_of(self.entities[id as int].coord) == ci
            }
    }

    /// No cell lists an id twice.
    pub open spec fn ids_distinct(self) -> bool {
        forall|ci: int, j: int, k: int|
            0 <= ci < self.cells.len() && 0 <= j < self.cells[ci].ids.len() && 0 <= k < j
                ==> #[trigger] self.cells[ci].ids[j] != #[trigger] self.cells[ci].ids[k]
    }

    /// The occupancy invariant: every live entity id appears in exactly one
    /// cell's set, and that cell is the cell of its recorded coordinate.
    pub open spec fn occupancy_ok(self) -> bool {
        &&& self.ids_listed()
        &&& self.listed_ids_match()
        &&& self.ids_distinct()
    }

    /// The NPC roster: exactly the live NPC-tiled ids, in increasing order.
    pub open spec fn npcs_ok(self) -> bool {
        &&& forall|i: int|
            0 <= i < self.npcs.len() ==> {
                let id = #[trigger] self.npcs[i];
                &&& (id as int) < self.entities.len()
                &&& self.entities[id as int].is_npc_entity()
            }
        &&& forall|i: int, j: int| 0 <= i < j < self.npcs.len() ==> self.npcs[i] < self.npcs[j]
        &&& forall|i: int|
            0 <= i < self.entities.len() && (#[trigger] self.entities[i]).is_npc_entity()
                ==> self.npcs.contains(i as EntityId)
    }

    /// Well-formedness of the store, preserved by every mutation.
    pub open spec fn wf(self) -> bool {
        &&& self.size.wf()
        &&& self.entities.len() < 0x1_0000_0000_0000_0000
        &&& self.cells.len() == self.size.area()
        &&& self.coords_in_bounds()
        &&& self.occupancy_ok()
        &&& self.npcs_ok()
    }

    /// The store after inserting a fresh entity built from `t` at `coord`.
    pub open spec fn add_spec(self, coord: Coord, t: PackedEntity) -> WorldV {
        let id = self.entities.len() as EntityId;
        let ci = self.size.index_of(coord);
        let old_cell = self.cells[ci];
        let bg = match t.background {
            Some(b) => b,
            None => old_cell.background,
        };
        WorldV {
            size: self.size,
            cells: self.cells.update(
                ci,
                CellV { background: bg, ids: old_cell.ids.push(id) },
            ),
            entities: self.entities.push(t.place_spec(coord)),
            npcs: if t.place_spec(coord).is_npc_entity() {
                self.npcs.push(id)
            } else {
                self.npcs
            },
        }
    }

    /// The store after entity `id` steps from its cell into `dst`.
    pub open spec fn relocate_spec(self, id: EntityId, dst: Coord) -> WorldV {
        let src = self.entity_of(id).coord;
        let si = self.size.index_of(src);
        let di = self.size.index_of(dst);
        let moved = Entity { coord: dst, ..self.entity_of(id) };
        let cells1 = self.cells.update(
            si,
            CellV { background: self.cells[si].background, ids: self.cells[si].ids.remove_value(id) },
        );
        let cells2 = cells1.update(
            di,
            CellV { background: cells1[di].background, ids: cells1[di].ids.push(id) },
        );
        WorldV {
            size: self.size,
            cells: cells2,
            entities: self.entities.update(id as int, moved),
            npcs: self.npcs,
        }
    }

    /// Full resolution of one movement request: destination computed from
    /// the mover's coordinate; blocked moves change nothing; a damageable
    /// occupant turns the move into an attack; otherwise the mover
    /// relocates.
    pub open spec fn move_spec(self, id: EntityId, direction: CardinalDirection) -> MoveStep {
        let src = self.entity_of(id).coord;
        let dst = direction.step_spec(src);
        if self.blocked_at(dst) {
            MoveStep { post: self, outcome: MoveOutcome::Blocked }
        } else {
            match first_damageable(self.cell_at(dst).ids, self.entities) {
                Some(victim) => MoveStep { post: self, outcome: MoveOutcome::Attack { victim } },
                None => MoveStep { post: self.relocate_spec(id, dst), outcome: MoveOutcome::Moved },
            }
        }
    }

    /// The store after `id`'s damage marker is set to `d`.
    pub open spec fn set_damage_dir_spec(self, id: EntityId, d: Option<CardinalDirection>) -> WorldV {
        WorldV {
            entities: self.entities.update(
                id as int,
                Entity { taking_damage_in_direction: d, ..self.entity_of(id) },
            ),
            ..self
        }
    }

    /// The store after `id` takes `amount` damage, floored at zero hit
    /// points. An entity without hit points is unchanged.
    pub open spec fn deal_damage_spec(self, id: EntityId, amount: u32) -> WorldV {
        match self.entity_of(id).hit_points {
            Some(hp) => WorldV {
                entities: self.entities.update(
                    id as int,
                    Entity {
                        hit_points: Some(
                            HitPoints {
                                num: if hp.num >= amount {
                                    (hp.num - amount) as u32
                                } else {
                                    0
                                },
                                max: hp.max,
                            },
                        ),
                        ..self.entity_of(id)
                    },
                ),
                ..self
            },
            None => self,
        }
    }

    /// The grid point `p` lies in bounds and does not occlude sight.
    pub open spec fn transparent_pt(self, p: (int, int)) -> bool {
        &&& 0 <= p.0 < self.size.width
        &&& 0 <= p.1 < self.size.height
        &&& !self.cells[p.1 * self.size.width + p.0].background.is_wall_spec()
    }

    /// Line-of-sight: `to` lies within `range` of `from` and every point
    /// strictly between them on the connecting discrete line is in bounds
    /// and transparent. A wall cell itself can be seen; it only blocks
    /// sight past itself.
    pub open spec fn sees(self, from: Coord, to: Coord, range: int) -> bool {
        if from == to {
            true
        } else {
            let pts = crate::line::line_points(
                from.x as int,
                from.y as int,
                to.x as int,
                to.y as int,
            );
            &&& crate::geom::dist2(from, to) <= range * range
            &&& forall|i: int| 1 <= i < pts.len() - 1 ==> self.transparent_pt(#[trigger] pts[i])
        }
    }

    /// The empty store over a grid of `size` floor cells.
    pub open spec fn empty_spec(size: Size) -> WorldV {
        WorldV {
            size,
            cells: Seq::new(
                size.area() as nat,
                |i: int| CellV { background: BackgroundTile::Floor, ids: Seq::empty() },
            ),
            entities: Seq::empty(),
            npcs: Seq::empty(),
        }
    }

    /// The store with the terrain layer of cell `c` replaced by `bg`.
    pub open spec fn set_background_spec(self, c: Coord, bg: BackgroundTile) -> WorldV {
        let ci = self.size.index_of(c);
        WorldV {
            cells: self.cells.update(ci, CellV { background: bg, ids: self.cells[ci].ids }),
            ..self
        }
    }

    /// The packed form of entity `id`.
    pub open spec fn pack_spec(self, id: EntityId) -> PackedEntity {
        PackedEntity {
            background: self.entity_of(id).background,
            foreground: self.entity_of(id).foreground,
            hit_points: self.entity_of(id).hit_points,
        }
    }

    /// Inserting an entity preserves well-formedness.
    pub proof fn lemma_add_wf(self, coord: Coord, t: PackedEntity)
        requires
            self.wf(),
            self.size.contains(coord),
            self.entities.len() < 0xffff_ffff_ffff_ffff,
        ensures
            self.add_spec(coord, t).wf(),
    {
        let w2 = self.add_spec(coord, t);
        let id = self.entities.len() as EntityId;
        let ci = self.size.index_of(coord);
        self.size.lemma_index_of_bounds(coord);
        assert forall|i: int| 0 <= i < w2.entities.len() implies w2.size.contains(
            (#[trigger] w2.entities[i]).coord,
        ) by {}
        assert forall|i: int| 0 <= i < w2.entities.len() implies w2.cells[w2.size.index_of(
            (#[trigger] w2.entities[i]).coord,
        )].ids.contains(i as EntityId) by {
            if i < self.entities.len() {
                let c = self.entities[i].coord;
                let cc = self.size.index_of(c);
                self.size.lemma_index_of_bounds(c);
                assert(self.cells[cc].ids.contains(i as EntityId));
                let k = choose|k: int|
                    0 <= k < self.cells[cc].ids.len() && self.cells[cc].ids[k] == i as EntityId;
                if cc == ci {
                    assert(w2.cells[cc].ids == self.cells[cc].ids.push(id));
                    assert(w2.cells[cc].ids[k] == self.cells[cc].ids[k]);
                } else {
                    assert(w2.cells[cc] == self.cells[cc]);
                }
                assert(w2.cells[cc].ids[k] == i as EntityId);
                assert(w2.entities[i] == self.entities[i]);
            } else {
                assert(w2.entities[i] == t.place_spec(coord));
                assert(w2.cells[ci].ids == self.cells[ci].ids.push(id));
                let n = w2.cells[ci].ids.len();
                assert(w2.cells[ci].ids[n - 1] == id);
            }
        }
        assert forall|cj: int, j: int|
            0 <= cj < w2.cells.len() && 0 <= j < w2.cells[cj].ids.len() implies {
            let lid = #[trigger] w2.cells[cj].ids[j];
            (lid as int) < w2.entities.len() && w2.size.index_of(w2.entities[lid as int].coord)
                == cj
        } by {
            if cj == ci && j == self.cells[ci].ids.len() {
            } else {
                assert(w2.cells[cj].ids[j] == self.cells[cj].ids[j]);
            }
        }
        assert forall|cj: int, j: int, k: int|
            0 <= cj < w2.cells.len() && 0 <= j < w2.cells[cj].ids.len() && 0 <= k < j implies
            w2.cells[cj].ids[j] != w2.cells[cj].ids[k] by {
            if cj == ci && j == self.cells[ci].ids.len() {
                assert(w2.cells[cj].ids[k] == self.cells[cj].ids[k]);
                assert((self.cells[cj].ids[k] as int) < self.entities.len());
            } else {
                assert(w2.cells[cj].ids[j] == self.cells[cj].ids[j]);
                assert(w2.cells[cj].ids[k] == self.cells[cj].ids[k]);
            }
        }
        assert forall|i: int|
            0 <= i < w2.entities.len() && (#[trigger] w2.entities[i]).is_npc_entity() implies
            w2.npcs.contains(i as EntityId) by {
            if i < self.entities.len() {
                assert(self.npcs.contains(i as EntityId));
                let k = choose|k: int| 0 <= k < self.npcs.len() && self.npcs[k] == i as EntityId;
                assert(w2.npcs[k] == i as EntityId);
            } else {
                assert(w2.npcs[w2.npcs.len() - 1] == id);
            }
        }
        assert forall|i: int| 0 <= i < w2.npcs.len() implies {
            let nid = #[trigger] w2.npcs[i];
            (nid as int) < w2.entities.len() && w2.entities[nid as int].is_npc_entity()
        } by {
            if i < self.npcs.len() {
                assert(w2.npcs[i] == self.npcs[i]);
            }
        }
    }

    /// A resolved movement request preserves well-formedness.
    pub proof fn lemma_move_wf(self, id: EntityId, direction: CardinalDirection)
        requires
            self.wf(),
            self.valid_id(id),
        ensures
            self.move_spec(id, direction).post.wf(),
    {
        let step = self.move_spec(id, direction);
        let src = self.entity_of(id).coord;
        let dst = direction.step_spec(src);
        if !self.blocked_at(dst) && first_damageable(self.cell_at(dst).ids, self.entities)
            is None {
            self.lemma_relocate_wf(id, dst);
        }
    }

    /// Relocating an entity into an unblocked destination cell preserves
    /// well-formedness.
    pub proof fn lemma_relocate_wf(self, id: EntityId, dst: Coord)
        requires
            self.wf(),
            self.valid_id(id),
            self.size.contains(dst),
            dst != self.entity_of(id).coord,
        ensures
            self.relocate_spec(id, dst).wf(),
    {
        let w2 = self.relocate_spec(id, dst);
        let src = self.entity_of(id).coord;
        let si = self.size.index_of(src);
        let di = self.size.index_of(dst);
        self.size.lemma_index_of_bounds(src);
        self.size.lemma_index_of_bounds(dst);
        assert(si != di);
        let s = self.cells[si].ids;
        s.index_of_first_ensures(id);
        assert(s.contains(id));
        let j = s.index_of_first(id)->Some_0;
        s.remove_ensures(j);
        let s2 = s.remove(j);
        assert(w2.cells[si].ids == s2);
        // the source cell was the only cell listing `id`
        assert forall|cj: int|
            0 <= cj < self.cells.len() && cj != si implies !self.cells[cj].ids.contains(id) by {
            if self.cells[cj].ids.contains(id) {
                let k = choose|k: int|
                    0 <= k < self.cells[cj].ids.len() && self.cells[cj].ids[k] == id;
                assert(self.size.index_of(self.entities[id as int].coord) == cj);
            }
        }
        // after removal the source cell no longer lists `id`
        assert forall|k: int| 0 <= k < s2.len() implies s2[k] != id by {
            if k < j {
                assert(s2[k] == s[k]);
            } else {
                assert(s2[k] == s[k + 1]);
            }
        }
        assert forall|i: int| 0 <= i < w2.entities.len() implies w2.size.contains(
            (#[trigger] w2.entities[i]).coord,
        ) by {}
        assert forall|i: int| 0 <= i < w2.entities.len() implies w2.cells[w2.size.index_of(
            (#[trigger] w2.entities[i]).coord,
        )].ids.contains(i as EntityId) by {
            if i == id as int {
                let n = w2.cells[di].ids.len();
                assert(w2.cells[di].ids[n - 1] == id);
            } else {
                let c = self.entities[i].coord;
                let cc = self.size.index_of(c);
                self.size.lemma_index_of_bounds(c);
                assert(self.cells[cc].ids.contains(i as EntityId));
                let k = choose|k: int|
                    0 <= k < self.cells[cc].ids.len() && self.cells[cc].ids[k] == i as EntityId;
                assert(self.cells[cc].ids[k] == i as EntityId);
                if cc == si {
                    assert(k != j);
                    if k < j {
                        assert(s2[k] == s[k]);
                        assert(s2[k] == i as EntityId);
                    } else {
                        assert(s2[k - 1] == s[k]);
                        assert(s2[k - 1] == i as EntityId);
                    }
                } else if cc == di {
                    assert(w2.cells[di].ids == self.cells[di].ids.push(id));
                    assert(w2.cells[di].ids[k] == self.cells[di].ids[k]);
                    assert(w2.cells[di].ids[k] == i as EntityId);
                } else {
                    assert(w2.cells[cc] == self.cells[cc]);
                    assert(w2.cells[cc].ids[k] == i as EntityId);
                }
            }
        }
        assert forall|cj: int, j2: int|
            0 <= cj < w2.cells.len() && 0 <= j2 < w2.cells[cj].ids.len() implies {
            let lid = #[trigger] w2.cells[cj].ids[j2];
            (lid as int) < w2.entities.len() && w2.size.index_of(w2.entities[lid as int].coord)
                == cj
        } by {
            if cj == si {
                let lid = w2.cells[si].ids[j2];
                if j2 < j {
                    assert(lid == s[j2]);
                } else {
                    assert(lid == s[j2 + 1]);
                }
                assert(lid != id);
                assert(w2.entities[lid as int] == self.entities[lid as int]);
            } else if cj == di {
                let lid = w2.cells[di].ids[j2];
                if j2 < self.cells[di].ids.len() {
                    assert(lid == self.cells[di].ids[j2]);
                    assert(lid != id);
                    assert(w2.entities[lid as int] == self.entities[lid as int]);
                } else {
                    assert(lid == id);
                }
            } else {
                let lid = w2.cells[cj].ids[j2];
                assert(lid == self.cells[cj].ids[j2]);
                assert(lid != id);
                assert(w2.entities[lid as int] == self.entities[lid as int]);
            }
        }
        assert forall|cj: int, j2: int, k2: int|
            0 <= cj < w2.cells.len() && 0 <= j2 < w2.cells[cj].ids.len() && 0 <= k2 < j2 implies
            w2.cells[cj].ids[j2] != w2.cells[cj].ids[k2] by {
            if cj == si {
                let a = if j2 < j { j2 } else { j2 + 1 };
                let b = if k2 < j { k2 } else { k2 + 1 };
                assert(w2.cells[si].ids[j2] == s[a]);
                assert(w2.cells[si].ids[k2] == s[b]);
            } else if cj == di {
                let olen = self.cells[di].ids.len();
                if j2 < olen {
                    assert(w2.cells[di].ids[j2] == self.cells[di].ids[j2]);
                    assert(w2.cells[di].ids[k2] == self.cells[di].ids[k2]);
                } else {
                    assert(w2.cells[di].ids[j2] == id);
                    assert(w2.cells[di].ids[k2] == self.cells[di].ids[k2]);
                    assert(!self.cells[di].ids.contains(id));
                }
            } else {
                assert(w2.cells[cj].ids[j2] == self.cells[cj].ids[j2]);
                assert(w2.cells[cj].ids[k2] == self.cells[cj].ids[k2]);
            }
        }
        assert forall|i: int| 0 <= i < w2.npcs.len() implies {
            let nid = #[trigger] w2.npcs[i];
            (nid as int) < w2.entities.len() && w2.entities[nid as int].is_npc_entity()
        } by {
            let nid = w2.npcs[i];
            if nid as int == id as int {
                assert(w2.entities[id as int].foreground == self.entities[id as int].foreground);
            }
        }
        assert forall|i: int|
            0 <= i < w2.entities.len() && (#[trigger] w2.entities[i]).is_npc_entity() implies
            w2.npcs.contains(i as EntityId) by {
            assert(w2.entities[i].foreground == self.entities[i].foreground);
        }
    }

    /// The store with entity `id` replaced by `e2`.
    pub open spec fn with_entity(self, id: EntityId, e2: Entity) -> WorldV {
        WorldV { entities: self.entities.update(id as int, e2), ..self }
    }

    /// Attribute mutations that touch no coordinate and no id preserve
    /// well-formedness.
    pub proof fn lemma_attr_update_wf(self, id: EntityId, e2: Entity)
        requires
            self.wf(),
            self.valid_id(id),
            e2.coord == self.entity_of(id).coord,
            e2.foreground == self.entity_of(id).foreground,
        ensures
            self.with_entity(id, e2).wf(),
    {
        let w2 = self.with_entity(id, e2);
        assert forall|i: int| 0 <= i < w2.entities.len() implies w2.size.contains(
            (#[trigger] w2.entities[i]).coord,
        ) by {}
        assert forall|i: int| 0 <= i < w2.entities.len() implies w2.cells[w2.size.index_of(
            (#[trigger] w2.entities[i]).coord,
        )].ids.contains(i as EntityId) by {
            assert(w2.entities[i].coord == self.entities[i].coord);
        }
        assert forall|i: int|
            0 <= i < w2.entities.len() && (#[trigger] w2.entities[i]).is_npc_entity() implies
            w2.npcs.contains(i as EntityId) by {
            assert(w2.entities[i].foreground == self.entities[i].foreground);
        }
        assert forall|i: int| 0 <= i < w2.npcs.len() implies {
            let nid = #[trigger] w2.npcs[i];
            (nid as int) < w2.entities.len() && w2.entities[nid as int].is_npc_entity()
        } by {
            let nid = w2.npcs[i];
            assert(w2.entities[nid as int].foreground == self.entities[nid as int].foreground);
        }
    }
}

/// How a movement request resolved, as handed to callers: either the mover
/// relocated, or the move became an attack and queued a damage animation.
pub enum ApplyAction {
    Done,
    Animation(crate::animation::Animation),
}

/// The spatial world store.
pub struct World {
    pub size: Size,
    pub cells: Vec<Cell>,
    pub entities: Vec<Entity>,
    pub npcs: Vec<EntityId>,
}

impl View for World {
    type V = WorldV;

    open spec fn view(&self) -> WorldV {
        WorldV {
            size: self.size,
            cells: self.cells@.map_values(
                |c: Cell| CellV { background: c.background, ids: c.entity_ids@ },
            ),
            entities: self.entities@,
            npcs: self.npcs@,
        }
    }
}

/// The first position of `id` in `v`.
fn find_id(v: &Vec<EntityId>, id: EntityId) -> (r: usize)
    requires
        v@.contains(id),
    ensures
        r < v@.len(),
        v@[r as int] == id,
        forall|k: int| 0 <= k < r ==> v@[k] != id,
{
    let n = v.len();
    let mut j: usize = 0;
    while j < n
        invariant
            j <= n,
            n == v@.len(),
            v@.contains(id),
            forall|k: int| 0 <= k < j ==> v@[k] != id,
        decreases n - j,
    {
        if v[j] == id {
            return j;
        }
        j += 1;
    }
    proof {
        let k = choose|k: int| 0 <= k < v@.len() && v@[k] == id;
        assert(false);
    }
    0
}

impl World {
    /// An empty store over a grid of `size` floor cells.
    pub fn new(size: Size) -> (r: World)
        requires
            size.wf(),
        ensures
            r@.wf(),
            r@ == WorldV::empty_spec(size),
            r@.size == size,
            r@.entities.len() == 0,
            r@.npcs.len() == 0,
            r@.cells.len() == size.area(),
            forall|i: int|
                0 <= i < size.area() ==> (#[trigger] r@.cells[i]).background
                    == BackgroundTile::Floor && r@.cells[i].ids.len() == 0,
    {
        let count = size.cell_count();
        let mut cells: Vec<Cell> = Vec::new();
        let mut i: usize = 0;
        while i < count
            invariant
                i <= count,
                cells@.len() == i,
                forall|k: int|
                    0 <= k < i ==> (#[trigger] cells@[k]).background == BackgroundTile::Floor
                        && cells@[k].entity_ids@.len() == 0,
            decreases count - i,
        {
            cells.push(Cell { background: BackgroundTile::Floor, entity_ids: Vec::new() });
            i += 1;
        }
        let r = World { size, cells, entities: Vec::new(), npcs: Vec::new() };
        proof {
            assert(r@ =~~= WorldV::empty_spec(size));
        }
        r
    }

    /// Replaces the terrain layer of the in-bounds cell `c`; occupancy is
    /// untouched.
    pub fn set_background(&mut self, c: Coord, bg: BackgroundTile)
        requires
            old(self)@.wf(),
            old(self)@.size.contains(c),
        ensures
            final(self)@.wf(),
            final(self)@ == old(self)@.set_background_spec(c, bg),
    {
        proof {
            self.size.lemma_index_of_bounds(c);
        }
        let ci = self.size.index(c);
        let cell = &mut self.cells[ci];
        cell.background = bg;
        proof {
            assert(self@ =~~= old(self)@.set_background_spec(c, bg));
            let w2 = self@;
            let w1 = old(self)@;
            assert forall|cj: int| 0 <= cj < w2.cells.len() implies (#[trigger] w2.cells[cj]).ids
                == w1.cells[cj].ids by {}
            assert forall|i: int| 0 <= i < w2.entities.len() implies w2.cells[w2.size.index_of(
                (#[trigger] w2.entities[i]).coord,
            )].ids.contains(i as EntityId) by {
                w1.size.lemma_index_of_bounds(w1.entities[i].coord);
            }
        }
    }

    /// Inserts a fresh entity built from `template` at `coord` and returns
    /// its newly assigned id.
    pub fn add_entity(&mut self, coord: Coord, template: PackedEntity) -> (id: EntityId)
        requires
            old(self)@.wf(),
            old(self)@.size.contains(coord),
            old(self)@.entities.len() < 0xffff_ffff_ffff_ffff,
        ensures
            final(self)@ == old(self)@.add_spec(coord, template),
            final(self)@.wf(),
            id as int == old(self)@.entities.len(),
    {
        proof {
            old(self)@.lemma_add_wf(coord, template);
            self.size.lemma_index_of_bounds(coord);
        }
        let id = self.entities.len() as EntityId;
        let ci = self.size.index(coord);
        let entity = Entity {
            coord,
            background: template.background,
            foreground: template.foreground,
            hit_points: template.hit_points,
            taking_damage_in_direction: None,
        };
        if let Some(bg) = template.background {
            let cell = &mut self.cells[ci];
            cell.background = bg;
            cell.entity_ids.push(id);
        } else {
            let cell = &mut self.cells[ci];
            cell.entity_ids.push(id);
        }
        self.entities.push(entity);
        let is_npc = match template.foreground {
            Some(f) => f.is_npc(),
            None => false,
        };
        if is_npc {
            self.npcs.push(id);
        }
        proof {
            assert(self@.cells =~~= old(self)@.add_spec(coord, template).cells);
            assert(self@ =~~= old(self)@.add_spec(coord, template));
        }
        id
    }

    /// Whether the background of the cell with row-major index `ci` is a
    /// wall.
    pub(crate) fn grid_background_is_wall(&self, ci: usize) -> (r: bool)
        requires
            ci < self@.cells.len(),
        ensures
            r == self@.cells[ci as int].background.is_wall_spec(),
    {
        self.cells[ci].background.is_wall()
    }

    /// Whether some entity standing in the in-bounds cell `c` is solid.
    pub(crate) fn any_solid_at(&self, c: Coord) -> (r: bool)
        requires
            self@.wf(),
            self@.size.contains(c),
        ensures
            r == self@.solid_at(c),
    {
        proof {
            self.size.lemma_index_of_bounds(c);
        }
        let ci = self.size.index(c);
        let en = self.entities.len();
        let n = self.cells[ci].entity_ids.len();
        proof {
            assert(self@.cell_at(c).ids == self.cells@[ci as int].entity_ids@);
        }
        let mut j: usize = 0;
        while j < n
            invariant
                self@.wf(),
                self@.size.contains(c),
                ci == self@.size.index_of(c),
                0 <= ci < self@.cells.len(),
                en == self@.entities.len(),
                j <= n,
                n == self@.cell_at(c).ids.len(),
                self@.cell_at(c).ids == self.cells@[ci as int].entity_ids@,
                forall|k: int|
                    0 <= k < j ==> !self@.entity_of(
                        #[trigger] self@.cell_at(c).ids[k],
                    ).is_solid_entity(),
            decreases n - j,
        {
            let id = self.cells[ci].entity_ids[j];
            proof {
                assert(id == self@.cell_at(c).ids[j as int]);
                assert((id as int) < self@.entities.len());
            }
            let solid = match self.entities[id as usize].foreground {
                Some(f) => f.is_solid(),
                None => false,
            };
            if solid {
                proof {
                    assert(self@.entity_of(self@.cell_at(c).ids[j as int]).is_solid_entity());
                }
                return true;
            }
            j += 1;
        }
        false
    }

    /// The id of the first damageable entity standing in the in-bounds cell
    /// `c`, if any.
    fn first_damageable_at(&self, c: Coord) -> (r: Option<EntityId>)
        requires
            self@.wf(),
            self@.size.contains(c),
        ensures
            r == first_damageable(self@.cell_at(c).ids, self@.entities),
    {
        proof {
            self.size.lemma_index_of_bounds(c);
        }
        let ci = self.size.index(c);
        let en = self.entities.len();
        let n = self.cells[ci].entity_ids.len();
        let ghost ids = self@.cell_at(c).ids;
        proof {
            assert(ids == self.cells@[ci as int].entity_ids@);
            assert(ids.skip(0) =~= ids);
        }
        let mut j: usize = 0;
        while j < n
            invariant
                self@.wf(),
                self@.size.contains(c),
                ci == self@.size.index_of(c),
                0 <= ci < self@.cells.len(),
                en == self@.entities.len(),
                j <= n,
                ids == self@.cell_at(c).ids,
                ids == self.cells@[ci as int].entity_ids@,
                n == ids.len(),
                first_damageable(ids, self@.entities) == first_damageable(
                    ids.skip(j as int),
                    self@.entities,
                ),
            decreases n - j,
        {
            let id = self.cells[ci].entity_ids[j];
            proof {
                assert(id == ids[j as int]);
                assert((id as int) < self@.entities.len());
                assert(ids.skip(j as int)[0] == ids[j as int]);
            }
            let damageable = self.entities[id as usize].hit_points.is_some();
            if damageable {
                return Some(id);
            }
            proof {
                assert(ids.skip(j as int).drop_first() =~= ids.skip(j as int + 1));
            }
            j += 1;
        }
        proof {
            assert(ids.skip(n as int).len() == 0);
        }
        None
    }

    /// Resolves one movement request for entity `id`: a blocked destination
    /// changes nothing, a damageable occupant turns the move into an attack
    /// animation, and otherwise the entity relocates one step.
    pub fn move_entity_in_direction(&mut self, id: EntityId, direction: CardinalDirection) -> (r:
        Result<ApplyAction, MoveError>)
        requires
            old(self)@.wf(),
            old(self)@.valid_id(id),
        ensures
            final(self)@.wf(),
            final(self)@ == old(self)@.move_spec(id, direction).post,
            (match old(self)@.move_spec(id, direction).outcome {
                MoveOutcome::Blocked => r == Err::<ApplyAction, MoveError>(MoveError::Blocked),
                MoveOutcome::Attack { victim } => r == Ok::<ApplyAction, MoveError>(
                    ApplyAction::Animation(crate::animation::Animation::damage_spec(victim, direction)),
                ),
                MoveOutcome::Moved => r == Ok::<ApplyAction, MoveError>(ApplyAction::Done),
            }),
    {
        proof {
            old(self)@.lemma_move_wf(id, direction);
        }
        let _entity_count = self.entities.len();
        let src = self.entities[id as usize].coord;
        let dst = direction.step(src);
        let ghost step = old(self)@.move_spec(id, direction);
        if !self.size.coord_in_bounds(dst) {
            return Err(MoveError::Blocked);
        }
        proof {
            self.size.lemma_index_of_bounds(dst);
        }
        let di = self.size.index(dst);
        proof {
            assert(self@.cell_at(dst) == CellV {
                background: self.cells@[di as int].background,
                ids: self.cells@[di as int].entity_ids@,
            });
        }
        if self.cells[di].background.is_wall() {
            return Err(MoveError::Blocked);
        }
        if self.any_solid_at(dst) {
            return Err(MoveError::Blocked);
        }
        assert(!old(self)@.blocked_at(dst));
        match self.first_damageable_at(dst) {
            Some(victim) => Ok(
                ApplyAction::Animation(crate::animation::Animation::damage(victim, direction)),
            ),
            None => {
                proof {
                    self.size.lemma_index_of_bounds(src);
                }
                let si = self.size.index(src);
                proof {
                    assert(self@.cell_at(src).ids.contains(id));
                    assert(self.cells@[si as int].entity_ids@ == self@.cell_at(src).ids);
                }
                let j = find_id(&self.cells[si].entity_ids, id);
                let _removed = self.cells[si].entity_ids.remove(j);
                self.cells[di].entity_ids.push(id);
                let e = &mut self.entities[id as usize];
                e.coord = dst;
                proof {
                    let s = old(self)@.cell_at(src).ids;
                    s.index_of_first_ensures(id);
                    assert(s[j as int] == id);
                    let jj = s.index_of_first(id)->Some_0;
                    assert(s[jj] == id);
                    assert(jj == j as int);
                    assert(s.remove_value(id) == s.remove(j as int));
                    assert(self@.cells =~~= step.post.cells);
                    assert(self@ =~~= step.post);
                }
                Ok(ApplyAction::Done)
            },
        }
    }

    /// Sets or clears the damage-recoil marker of entity `id`; occupancy is
    /// untouched.
    pub fn set_taking_damage_in_direction(&mut self, id: EntityId, d: Option<CardinalDirection>)
        requires
            old(self)@.wf(),
            old(self)@.valid_id(id),
        ensures
            final(self)@.wf(),
            final(self)@ == old(self)@.set_damage_dir_spec(id, d),
    {
        let _entity_count = self.entities.len();
        let e = &mut self.entities[id as usize];
        e.taking_damage_in_direction = d;
        proof {
            old(self)@.lemma_attr_update_wf(id, self@.entity_of(id));
            assert(self@ =~~= old(self)@.set_damage_dir_spec(id, d));
        }
    }

    /// Decrements `id`'s hit points by `amount`, floored at zero. Whether
    /// the entity died is for the caller to read afterwards.
    pub fn deal_damage(&mut self, id: EntityId, amount: u32)
        requires
            old(self)@.wf(),
            old(self)@.valid_id(id),
        ensures
            final(self)@.wf(),
            final(self)@ == old(self)@.deal_damage_spec(id, amount),
    {
        let _entity_count = self.entities.len();
        let e = &mut self.entities[id as usize];
        match e.hit_points {
            Some(hp) => {
                let num = if hp.num >= amount {
                    hp.num - amount
                } else {
                    0
                };
                e.hit_points = Some(HitPoints { num, max: hp.max });
            },
            None => {},
        }
        proof {
            old(self)@.lemma_attr_update_wf(id, self@.entity_of(id));
            assert(self@ =~~= old(self)@.deal_damage_spec(id, amount));
        }
    }

    /// Serializes the attribute subset of entity `id` that survives a level
    /// transition.
    pub fn pack_entity(&self, id: EntityId) -> (r: PackedEntity)
        requires
            self@.wf(),
            self@.valid_id(id),
        ensures
            r == self@.pack_spec(id),
    {
        let _entity_count = self.entities.len();
        let e = &self.entities[id as usize];
        PackedEntity { background: e.background, foreground: e.foreground, hit_points: e.hit_points }
    }

    /// Read-only view of the entity arena, indexed by id.
    pub fn entities(&self) -> (r: &Vec<Entity>)
        ensures
            r@ == self@.entities,
    {
        &self.entities
    }

    /// The entity with the given live id.
    pub fn entity(&self, id: EntityId) -> (r: &Entity)
        requires
            self@.valid_id(id),
        ensures
            *r == self@.entity_of(id),
    {
        let _entity_count = self.entities.len();
        &self.entities[id as usize]
    }

    /// Read-only view of the grid cells, in row-major order.
    pub fn grid(&self) -> (r: &Vec<Cell>)
        ensures
            r@ == self.cells@,
    {
        &self.cells
    }

    /// The ids of all NPC entities, in increasing id order.
    pub fn npc_ids(&self) -> (r: &Vec<EntityId>)
        ensures
            r@ == self@.npcs,
    {
        &self.npcs
    }

    /// Line-of-sight probe: whether `to` is within `max_range` of `from`
    /// and no wall stands strictly between them on the connecting line.
    pub fn can_see(&self, from: Coord, to: Coord, max_range: u32) -> (r: bool)
        requires
            self@.wf(),
            self@.size.contains(from),
            self@.size.contains(to),
            max_range <= 0x7fff,
        ensures
            r == self@.sees(from, to, max_range as int),
    {
        if from == to {
            return true;
        }
        let dx = (from.x as i64) - (to.x as i64);
        let dy = (from.y as i64) - (to.y as i64);
        proof {
            assert(dx * dx < 0x4000_0000_0000_0000 && dy * dy < 0x4000_0000_0000_0000 && dx * dx
                >= 0 && dy * dy >= 0) by (nonlinear_arith)
                requires
                    -0x8000 < dx < 0x8000,
                    -0x8000 < dy < 0x8000,
            ;
        }
        let d2 = dx * dx + dy * dy;
        let range = max_range as i64;
        proof {
            assert(0 <= range * range < 0x4000_0000) by (nonlinear_arith)
                requires
                    0 <= range <= 0x7fff,
            ;
        }
        if d2 > range * range {
            return false;
        }
        let pts = crate::line::line_between(from, to);
        let ghost lp = crate::line::line_points(
            from.x as int,
            from.y as int,
            to.x as int,
            to.y as int,
        );
        let n = pts.len();
        proof {
            assert(lp.len() == n);
        }
        let mut i: usize = 1;
        while i < n - 1
            invariant
                self@.wf(),
                n == pts@.len(),
                n >= 2,
                1 <= i,
                i <= n,
                lp == pts@.map_values(|c: Coord| (c.x as int, c.y as int)),
                lp == crate::line::line_points(
                    from.x as int,
                    from.y as int,
                    to.x as int,
                    to.y as int,
                ),
                lp.len() == n,
                from != to,
                crate::geom::dist2(from, to) <= (max_range as int) * (max_range as int),
                forall|k: int| 1 <= k < i ==> self@.transparent_pt(#[trigger] lp[k]),
            decreases n - i,
        {
            let p = pts[i];
            proof {
                assert(lp[i as int] == (p.x as int, p.y as int));
            }
            if !self.size.coord_in_bounds(p) {
                proof {
                    assert(1 <= (i as int) && (i as int) < lp.len() - 1);
                    assert(lp == crate::line::line_points(
                        from.x as int,
                        from.y as int,
                        to.x as int,
                        to.y as int,
                    ));
                    assert(!self@.transparent_pt(crate::line::line_points(
                        from.x as int,
                        from.y as int,
                        to.x as int,
                        to.y as int,
                    )[i as int]));
                    assert(!self@.sees(from, to, max_range as int));
                }
                return false;
            }
            proof {
                self.size.lemma_index_of_bounds(p);
            }
            let ci = self.size.index(p);
            if self.cells[ci].background.is_wall() {
                proof {
                    assert(1 <= (i as int) && (i as int) < lp.len() - 1);
                    assert(self@.cells[ci as int].background == self.cells@[ci as int].background);
                    assert(ci as int == lp[i as int].1 * self@.size.width + lp[i as int].0);
                    assert(!self@.transparent_pt(crate::line::line_points(
                        from.x as int,
                        from.y as int,
                        to.x as int,
                        to.y as int,
                    )[i as int]));
                    assert(!self@.sees(from, to, max_range as int));
                }
                return false;
            }
            i += 1;
        }
        true
    }
}

/// Move determinism: the resolution of a movement request, outcome and
/// post-state alike, is a function of the store state, the mover and the
/// direction alone; `move_entity_in_direction` promises exactly this
/// resolution, so two calls from equal stores agree.
pub proof fn lemma_move_deterministic(w1: WorldV, w2: WorldV, id: EntityId, d: CardinalDirection)
    requires
        w1 == w2,
    ensures
        w1.move_spec(id, d) == w2.move_spec(id, d),
{
}

/// Blocked moves are no-ops: a movement request whose destination is out
/// of bounds or impassable leaves occupancy and every entity unchanged.
pub proof fn lemma_blocked_move_is_noop(w: WorldV, id: EntityId, d: CardinalDirection)
    requires
        w.move_spec(id, d).outcome is Blocked,
    ensures
        w.move_spec(id, d).post == w,
{
}

/// Occupancy invariant: in a well-formed store, every live entity id is
/// listed in the cell of its recorded coordinate, and no other cell lists
/// it.
pub proof fn lemma_occupancy(w: WorldV, id: EntityId)
    requires
        w.wf(),
        w.valid_id(id),
    ensures
        w.cell_at(w.entity_of(id).coord).ids.contains(id),
        forall|ci: int|
            0 <= ci < w.cells.len() && (#[trigger] w.cells[ci]).ids.contains(id) ==> ci
                == w.size.index_of(w.entity_of(id).coord),
{
    assert(w.cells[w.size.index_of(w.entities[id as int].coord)].ids.contains(id));
    assert forall|ci: int|
        0 <= ci < w.cells.len() && (#[trigger] w.cells[ci]).ids.contains(id) implies ci
        == w.size.index_of(w.entity_of(id).coord) by {
        let k = choose|k: int| 0 <= k < w.cells[ci].ids.len() && w.cells[ci].ids[k] == id;
        assert(w.size.index_of(w.entities[id as int].coord) == ci);
    }
}

/// Carry-over round trip: packing an entity and placing the packed record
/// as the next level's player preserves the damageable attribute state,
/// the hit points, exactly.
pub proof fn lemma_pack_round_trip(w: WorldV, id: EntityId, coord: Coord)
    ensures
        w.pack_spec(id).place_spec(coord).hit_points == w.entity_of(id).hit_points,
        w.pack_spec(id).place_spec(coord).foreground == w.entity_of(id).foreground,
{
}

} // verus!
