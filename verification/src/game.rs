//! The turn and animation scheduler: the top-level per-tick driver that
//! alternates a player turn and an engine turn, drains damage animations
//! between them, refreshes visibility, and reports terminal outcomes.

use vstd::prelude::*;
use crate::animation::Animation;
use crate::animation::AnimationState;
use crate::geom::CardinalDirection;
use crate::geom::Coord;
use crate::geom::Size;
use crate::pathfinding::choose_dir;
use crate::pathfinding::commitment_of;
use crate::pathfinding::committed_of;
use crate::pathfinding::CommitmentGrid;
use crate::pathfinding::PathfindingContext;
use crate::tiles::BackgroundTile;
use crate::tiles::ForegroundTile;
use crate::vision::VisibleArea;
use crate::vision::VISION_RANGE;
use crate::world::Entity;
use crate::world::EntityId;
use crate::world::MoveOutcome;
use crate::world::PackedEntity;
use crate::world::World;
use crate::world::WorldV;
use crate::world::ApplyAction;

verus! {

/// How far an NPC can notice the player.
pub const NPC_VISION_RANGE: u32 = 16;

/// A movement input for the player.
#[derive(Clone, Copy, Debug, PartialEq, Eq, Structural)]
pub enum Input {
    Move(CardinalDirection),
}

/// Whose movement requests the scheduler accepts this tick.
#[derive(Clone, Copy, Debug, PartialEq, Eq, Structural)]
pub enum Turn {
    Player,
    Engine,
}

/// The packed player state carried from one level to the next.
#[derive(Clone, Copy, Debug, PartialEq, Eq)]
pub struct BetweenLevels {
    pub player: PackedEntity,
}

/// A terminal outcome of the current level.
#[derive(Clone, Copy, Debug, PartialEq, Eq)]
pub enum End {
    ExitLevel(BetweenLevels),
    PlayerDied,
}

/// One placement step of a terrain description.
#[derive(Clone, Copy, Debug, PartialEq, Eq)]
pub enum Instruction {
    SetBackground(Coord, BackgroundTile),
    AddEntity(Coord, PackedEntity),
}

/// A finished map layout: grid dimensions, the starting player coordinate
/// and an ordered list of placements, consumed once at level construction.
pub struct TerrainDescription {
    pub size: Size,
    pub player_coord: Coord,
    pub instructions: Vec<Instruction>,
}

impl Instruction {
    /// The coordinate this placement touches.
    pub open spec fn coord_spec(self) -> Coord {
        match self {
            Instruction::SetBackground(c, _) => c,
            Instruction::AddEntity(c, _) => c,
        }
    }
}

impl TerrainDescription {
    pub open spec fn wf(self) -> bool {
        &&& self.size.wf()
        &&& self.size.contains(self.player_coord)
        &&& self.instructions@.len() < 0x0080_0000
        &&& forall|i: int|
            0 <= i < self.instructions@.len() ==> self.size.contains(
                (#[trigger] self.instructions@[i]).coord_spec(),
            )
    }
}

/// The store after one placement instruction.
pub open spec fn apply_instruction(w: WorldV, ins: Instruction) -> WorldV {
    match ins {
        Instruction::SetBackground(c, bg) => w.set_background_spec(c, bg),
        Instruction::AddEntity(c, t) => w.add_spec(c, t),
    }
}

/// The store after an ordered list of placement instructions.
pub open spec fn apply_instructions(w: WorldV, list: Seq<Instruction>) -> WorldV
    decreases list.len(),
{
    if list.len() == 0 {
        w
    } else {
        apply_instructions(apply_instruction(w, list[0]), list.drop_first())
    }
}

proof fn lemma_apply_instructions_snoc(w: WorldV, list: Seq<Instruction>, x: Instruction)
    ensures
        apply_instructions(w, list.push(x)) == apply_instruction(apply_instructions(w, list), x),
    decreases list.len(),
{
    if list.len() == 0 {
        assert(list.push(x)[0] == x);
        assert(list.push(x).drop_first() =~= list);
        assert(apply_instructions(w, list.push(x)) == apply_instructions(
            apply_instruction(w, x),
            list,
        ));
        assert(apply_instructions(apply_instruction(w, x), list) == apply_instruction(w, x));
        assert(apply_instructions(w, list) == w);
    } else {
        assert(list.push(x)[0] == list[0]);
        assert(list.push(x).drop_first() =~= list.drop_first().push(x));
        assert(apply_instructions(w, list.push(x)) == apply_instructions(
            apply_instruction(w, list[0]),
            list.drop_first().push(x),
        ));
        lemma_apply_instructions_snoc(apply_instruction(w, list[0]), list.drop_first(), x);
        assert(apply_instructions(w, list) == apply_instructions(
            apply_instruction(w, list[0]),
            list.drop_first(),
        ));
    }
}

/// The world and the queued animations after one sequence of committed
/// NPC moves, executed in order: each attack queues a damage animation,
/// blocked moves are silent no-ops.
pub open spec fn run_moves(w: WorldV, moves: Seq<(EntityId, CardinalDirection)>) -> (
    WorldV,
    Seq<Animation>,
)
    decreases moves.len(),
{
    if moves.len() == 0 {
        (w, Seq::empty())
    } else {
        let id = moves[0].0;
        let d = moves[0].1;
        let step = w.move_spec(id, d);
        let rest = run_moves(step.post, moves.drop_first());
        let here: Seq<Animation> = match step.outcome {
            MoveOutcome::Attack { victim } => seq![Animation::damage_spec(victim, d)],
            _ => Seq::empty(),
        };
        (rest.0, here + rest.1)
    }
}

proof fn lemma_run_moves_snoc(
    w: WorldV,
    moves: Seq<(EntityId, CardinalDirection)>,
    x: (EntityId, CardinalDirection),
)
    ensures
        ({
            let r = run_moves(w, moves);
            let step = r.0.move_spec(x.0, x.1);
            let here: Seq<Animation> = match step.outcome {
                MoveOutcome::Attack { victim } => seq![Animation::damage_spec(victim, x.1)],
                _ => Seq::empty(),
            };
            run_moves(w, moves.push(x)).0 == step.post && run_moves(w, moves.push(x)).1 == r.1
                + here
        }),
    decreases moves.len(),
{
    if moves.len() == 0 {
        let e = Seq::<(EntityId, CardinalDirection)>::empty();
        assert(moves.push(x)[0] == x);
        assert(moves.push(x).drop_first() =~= e);
        let step = w.move_spec(x.0, x.1);
        assert(run_moves(step.post, e) == (step.post, Seq::<Animation>::empty()));
        assert(run_moves(w, e) == (w, Seq::<Animation>::empty()));
        assert(run_moves(w, moves.push(x)).0 == step.post);
        assert(run_moves(w, moves.push(x)).1 =~= run_moves(w, moves).1 + ({
            match step.outcome {
                MoveOutcome::Attack { victim } => seq![Animation::damage_spec(victim, x.1)],
                _ => Seq::<Animation>::empty(),
            }
        }));
    } else {
        assert(moves.push(x)[0] == moves[0]);
        assert(moves.push(x).drop_first() =~= moves.drop_first().push(x));
        let step0 = w.move_spec(moves[0].0, moves[0].1);
        assert(run_moves(w, moves.push(x)).0 == run_moves(
            step0.post,
            moves.drop_first().push(x),
        ).0);
        lemma_run_moves_snoc(step0.post, moves.drop_first(), x);
        assert(run_moves(w, moves).0 == run_moves(step0.post, moves.drop_first()).0);
        assert(run_moves(w, moves.push(x)).1 =~= run_moves(w, moves).1 + ({
            let step = run_moves(w, moves).0.move_spec(x.0, x.1);
            match step.outcome {
                MoveOutcome::Attack { victim } => seq![Animation::damage_spec(victim, x.1)],
                _ => Seq::<Animation>::empty(),
            }
        }));
    }
}

/// The world, animation queue and turn flag: the state the per-tick phase
/// functions transform.
#[verifier::ext_equal]
pub ghost struct CoreState {
    pub world: WorldV,
    pub anims: Seq<Animation>,
    pub turn: Turn,
}

/// Advancing the head animation (the newest queued one) by `period_ms`: it
/// either fires, mutating the world and possibly queuing a follow-up, or
/// its remaining delay shrinks. An empty queue is a no-op.
pub open spec fn animate_spec(s: CoreState, period_ms: u64) -> CoreState {
    if s.anims.len() == 0 {
        s
    } else {
        let a = s.anims.last();
        let rest = s.anims.drop_last();
        let step = a.tick_spec(period_ms, s.world);
        CoreState {
            world: step.0,
            anims: match step.1 {
                Some(f) => rest.push(f),
                None => rest,
            },
            turn: s.turn,
        }
    }
}

/// Resolving at most one player input: a blocked move is a cancelled
/// no-op and the turn stays with the player; a completed move or an attack
/// hands the turn to the engine, an attack also queues its animation.
pub open spec fn player_phase_spec(s: CoreState, pid: EntityId, input: Option<Input>) -> CoreState {
    match input {
        None => s,
        Some(Input::Move(d)) => {
            let step = s.world.move_spec(pid, d);
            match step.outcome {
                MoveOutcome::Blocked => s,
                MoveOutcome::Attack { victim } => CoreState {
                    world: step.post,
                    anims: s.anims.push(Animation::damage_spec(victim, d)),
                    turn: Turn::Engine,
                },
                MoveOutcome::Moved => CoreState { world: step.post, anims: s.anims, turn: Turn::Engine },
            }
        },
    }
}

/// Executing every committed NPC move, in increasing id order, then
/// handing the turn back to the player.
pub open spec fn engine_moves_spec(s: CoreState, moves: Seq<(EntityId, CardinalDirection)>)
    -> CoreState {
    let r = run_moves(s.world, moves);
    CoreState { world: r.0, anims: s.anims + r.1, turn: Turn::Player }
}

/// The first input of the tick, if any; later inputs are dropped.
pub open spec fn first_input(inputs: Seq<Input>) -> Option<Input> {
    if inputs.len() == 0 {
        None
    } else {
        Some(inputs[0])
    }
}

/// The terminal outcome the scheduler reports for a world: level exit when
/// the player stands on a cell with the stairs marker (packing the player
/// for carry-over), death when the player's hit points are exactly zero.
pub open spec fn end_spec(w: WorldV, pid: EntityId) -> Option<End> {
    if exists|j: int|
        0 <= j < w.cell_at(w.entity_of(pid).coord).ids.len() && w.entity_of(
            #[trigger] w.cell_at(w.entity_of(pid).coord).ids[j],
        ).foreground == Some(ForegroundTile::Stairs) {
        Some(End::ExitLevel(BetweenLevels { player: w.pack_spec(pid) }))
    } else if w.entity_of(pid).hit_points.unwrap().num == 0 {
        Some(End::PlayerDied)
    } else {
        None
    }
}

/// The commitment table after an engine turn's gated recommit pass over
/// world `w`: an NPC that can currently see the player gets the first step
/// of a shortest path recomputed; one that cannot keeps its previous
/// commitment unchanged.
pub open spec fn recommit_ok(
    old_pf: PathfindingContext,
    new_pf: PathfindingContext,
    w: WorldV,
    pid: EntityId,
) -> bool {
    let pc = w.entity_of(pid).coord;
    &&& new_pf.player_coord == pc
    &&& new_pf.synced(w)
    &&& new_pf.size == old_pf.size
    &&& forall|id: EntityId|
        (id as int) < w.entities.len() && w.entity_of(id).is_npc_entity() ==> #[trigger] commitment_of(
            new_pf.commitments@,
            id,
        ) == (if w.sees(w.entity_of(id).coord, pc, NPC_VISION_RANGE as int) {
            choose_dir(w, new_pf.distance_map@, w.entity_of(id).coord)
        } else {
            commitment_of(old_pf.commitments@, id)
        })
    &&& forall|id: EntityId|
        ((id as int) >= w.entities.len() || !w.entity_of(id).is_npc_entity())
            ==> #[trigger] commitment_of(new_pf.commitments@, id) == commitment_of(
            old_pf.commitments@,
            id,
        )
}

/// Commitment stickiness: across an engine turn's recommit pass over the
/// post-move world `w`, an NPC that cannot currently see the player keeps
/// its previously committed direction unchanged — also when executing that
/// direction was blocked, since the store's silent no-op leaves the
/// commitment itself untouched. Stickiness ends only when the NPC sees the
/// player again. The recommit relation is carried by `tick`'s own ensures,
/// so this holds of every engine turn a tick runs.
pub proof fn lemma_commitment_stickiness(
    old_pf: PathfindingContext,
    new_pf: PathfindingContext,
    w: WorldV,
    pid: EntityId,
    id: EntityId,
)
    requires
        recommit_ok(old_pf, new_pf, w, pid),
        (id as int) < w.entities.len(),
        w.entity_of(id).is_npc_entity(),
        !w.sees(w.entity_of(id).coord, w.entity_of(pid).coord, NPC_VISION_RANGE as int),
    ensures
        commitment_of(new_pf.commitments@, id) == commitment_of(old_pf.commitments@, id),
{
}

/// The simulation core of one level: the world store, the visibility
/// memory, the movement commitments, the animation queue and the turn
/// flag.
pub struct Gws {
    pub world: World,
    pub visible_area: VisibleArea,
    pub pathfinding: PathfindingContext,
    pub player_id: EntityId,
    pub animation: Vec<Animation>,
    pub turn: Turn,
}

/// A read-only bundle for one external render pass.
pub struct ToRender<'a> {
    pub world: &'a World,
    pub visible_area: &'a VisibleArea,
    pub player: &'a Entity,
    pub commitment_grid: CommitmentGrid,
}

impl Gws {
    /// Well-formedness of the whole core, established by construction and
    /// preserved by every tick.
    pub open spec fn wf(self) -> bool {
        &&& self.world@.wf()
        &&& self.world@.entities.len() < 0x0100_0000
        &&& self.world@.valid_id(self.player_id)
        &&& self.world@.entity_of(self.player_id).foreground == Some(ForegroundTile::Player)
        &&& self.world@.entity_of(self.player_id).hit_points is Some
        &&& self.visible_area.wf()
        &&& self.visible_area.size == self.world@.size
        &&& self.pathfinding.wf()
        &&& self.pathfinding.size == self.world@.size
        &&& self.pathfinding.commitments@.len() < 0x0100_0000
        &&& forall|id: int|
            0 <= id < self.pathfinding.commitments@.len() && (
            #[trigger] self.pathfinding.commitments@[id]) is Some ==> id
                < self.world@.entities.len()
        &&& forall|i: int|
            0 <= i < self.animation@.len() ==> ((#[trigger] self.animation@[i]).state.target_id()
                as int) < self.world@.entities.len()
    }

    /// The core state the tick phases transform.
    pub open spec fn core_state(self) -> CoreState {
        CoreState { world: self.world@, anims: self.animation@, turn: self.turn }
    }
}

/// The template the new level's player is built from: the carried-over
/// packed player, or the fresh default.
pub open spec fn carry_template(b: Option<BetweenLevels>) -> PackedEntity {
    match b {
        None => PackedEntity::player_spec(),
        Some(bl) => bl.player,
    }
}

/// The commitment table after the construction-time commit pass: every
/// NPC committed toward the player, everything else absent.
pub open spec fn initial_commit_ok(pf: PathfindingContext, w: WorldV, pc: Coord) -> bool {
    &&& pf.player_coord == pc
    &&& pf.synced(w)
    &&& forall|id: EntityId|
        (id as int) < w.entities.len() && w.entity_of(id).is_npc_entity()
            ==> #[trigger] commitment_of(pf.commitments@, id) == choose_dir(
            w,
            pf.distance_map@,
            w.entity_of(id).coord,
        )
    &&& forall|id: EntityId|
        ((id as int) >= w.entities.len() || !w.entity_of(id).is_npc_entity())
            ==> #[trigger] commitment_of(pf.commitments@, id) is None
}

/// A freshly built visibility memory after its first refresh from
/// `origin` over `w`: discovered coincides with visible.
pub open spec fn vision_fresh_ok(va: VisibleArea, w: WorldV, origin: Coord) -> bool {
    &&& va.wf()
    &&& va.size == w.size
    &&& forall|i: int|
        0 <= i < va.cells@.len() ==> (#[trigger] va.cells@[i]).visible == w.sees(
            origin,
            va.size.coord_of_index(i),
            VISION_RANGE as int,
        )
    &&& forall|i: int|
        0 <= i < va.cells@.len() ==> (#[trigger] va.cells@[i]).discovered == va.cells@[i].visible

}

/// The visibility memory after one refresh from `origin` over `w`.
pub open spec fn vision_updated_ok(
    old_va: VisibleArea,
    new_va: VisibleArea,
    w: WorldV,
    origin: Coord,
) -> bool {
    &&& new_va.wf()
    &&& new_va.size == old_va.size
    &&& new_va.cells@.len() == old_va.cells@.len()
    &&& forall|i: int|
        0 <= i < new_va.cells@.len() ==> (#[trigger] new_va.cells@[i]).visible == w.sees(
            origin,
            new_va.size.coord_of_index(i),
            VISION_RANGE as int,
        )
    &&& forall|i: int|
        0 <= i < new_va.cells@.len() ==> (#[trigger] new_va.cells@[i]).discovered == (
        old_va.cells@[i].discovered || new_va.cells@[i].visible)
}

/// Elements of a committed-movement snapshot are ids whose table entry is
/// exactly that committed direction.
proof fn lemma_committed_of_elems(s: Seq<Option<CardinalDirection>>)
    requires
        s.len() < 0x0100_0000,
    ensures
        forall|j: int|
            0 <= j < committed_of(s).len() ==> ((#[trigger] committed_of(s)[j]).0 as int) < s.len()
                && s[committed_of(s)[j].0 as int] == Some(committed_of(s)[j].1),
    decreases s.len(),
{
    if s.len() > 0 {
        lemma_committed_of_elems(s.drop_last());
        assert forall|j: int|
            0 <= j < committed_of(s).len() implies ((#[trigger] committed_of(s)[j]).0 as int)
            < s.len() && s[committed_of(s)[j].0 as int] == Some(committed_of(s)[j].1) by {
            let pre = committed_of(s.drop_last());
            if j < pre.len() {
                assert(committed_of(s)[j] == pre[j]);
                assert(s.drop_last()[pre[j].0 as int] == s[pre[j].0 as int]);
            } else {
                assert(s.last() == Some(committed_of(s)[j].1));
            }
        }
    }
}

/// A found first damageable id is listed in the cell.
proof fn lemma_first_damageable_contains(ids: Seq<EntityId>, entities: Seq<Entity>)
    ensures
        crate::world::first_damageable(ids, entities) matches Some(v) ==> ids.contains(v),
    decreases ids.len(),
{
    if ids.len() > 0 {
        lemma_first_damageable_contains(ids.drop_first(), entities);
        let fd = crate::world::first_damageable(ids, entities);
        if fd is Some {
            let v = fd->Some_0;
            if !entities[ids[0] as int].is_damageable() {
                assert(ids.drop_first().contains(v));
                let k = choose|k: int|
                    0 <= k < ids.drop_first().len() && ids.drop_first()[k] == v;
                assert(ids[k + 1] == v);
            }
        }
    }
}

/// A private marker for how a player input resolved.
enum PlayerTurn {
    Done,
    Cancelled,
    Animation(Animation),
}

impl Gws {
    /// Builds one level: applies the terrain description's placements in
    /// order to an empty store, inserts the player (carried over or
    /// fresh), commits every NPC toward the player, and computes the
    /// initial visibility.
    pub fn new(between_levels: Option<BetweenLevels>, terrain: &TerrainDescription) -> (r: Gws)
        requires
            terrain.wf(),
            carry_template(between_levels).foreground == Some(ForegroundTile::Player),
            carry_template(between_levels).hit_points is Some,
        ensures
            r.wf(),
            r.world@ == apply_instructions(
                WorldV::empty_spec(terrain.size),
                terrain.instructions@,
            ).add_spec(terrain.player_coord, carry_template(between_levels)),
            r.player_id as int == apply_instructions(
                WorldV::empty_spec(terrain.size),
                terrain.instructions@,
            ).entities.len(),
            r.world@.entity_of(r.player_id).hit_points == carry_template(
                between_levels,
            ).hit_points,
            r.world@.entity_of(r.player_id).coord == terrain.player_coord,
            r.turn == Turn::Player,
            r.animation@.len() == 0,
            initial_commit_ok(r.pathfinding, r.world@, terrain.player_coord),
            vision_fresh_ok(r.visible_area, r.world@, terrain.player_coord),
    {
        let size = terrain.size;
        let mut world = World::new(size);
        let ghost w0 = WorldV::empty_spec(size);
        let n = terrain.instructions.len();
        let mut i: usize = 0;
        while i < n
            invariant
                terrain.wf(),
                n == terrain.instructions@.len(),
                i <= n,
                world@.wf(),
                world@.size == size,
                size == terrain.size,
                world@.entities.len() <= i,
                world@ == apply_instructions(w0, terrain.instructions@.take(i as int)),
            decreases n - i,
        {
            proof {
                assert(terrain.instructions@.take(i as int).push(terrain.instructions@[i as int])
                    =~= terrain.instructions@.take(i as int + 1));
                lemma_apply_instructions_snoc(
                    w0,
                    terrain.instructions@.take(i as int),
                    terrain.instructions@[i as int],
                );
            }
            match terrain.instructions[i] {
                Instruction::SetBackground(c, bg) => world.set_background(c, bg),
                Instruction::AddEntity(c, t) => {
                    let _ = world.add_entity(c, t);
                },
            }
            i += 1;
        }
        proof {
            assert(terrain.instructions@.take(n as int) =~= terrain.instructions@);
        }
        let template = match between_levels {
            None => PackedEntity::player(),
            Some(b) => b.player,
        };
        let player_coord = terrain.player_coord;
        let player_id = world.add_entity(player_coord, template);
        let mut pathfinding = PathfindingContext::new(size);
        pathfinding.update_player_coord(player_coord, &world);
        let ghost dm0 = pathfinding.distance_map@;
        let nn = world.npcs.len();
        let mut k: usize = 0;
        while k < nn
            invariant
                world@.wf(),
                world@.size == size,
                world@.entities.len() < 0x0100_0000,
                nn == world@.npcs.len(),
                k <= nn,
                pathfinding.wf(),
                pathfinding.size == size,
                pathfinding.player_coord == player_coord,
                pathfinding.synced(world@),
                pathfinding.distance_map@ == dm0,
                pathfinding.commitments@.len() < 0x0100_0000,
                forall|id: int|
                    0 <= id < pathfinding.commitments@.len() && (
                    #[trigger] pathfinding.commitments@[id]) is Some ==> id
                        < world@.entities.len(),
                forall|j: int|
                    0 <= j < k ==> #[trigger] commitment_of(
                        pathfinding.commitments@,
                        world@.npcs[j],
                    ) == choose_dir(world@, dm0, world@.entity_of(world@.npcs[j]).coord),
                forall|id: EntityId|
                    !(exists|j: int| 0 <= j < k && world@.npcs[j] == id) ==> #[trigger] commitment_of(
                        pathfinding.commitments@,
                        id,
                    ) is None,
            decreases nn - k,
        {
            let id = world.npcs[k];
            pathfinding.commit_to_moving_towards_player(id, &world);
            proof {
                assert forall|j: int|
                    0 <= j < k + 1 implies #[trigger] commitment_of(
                    pathfinding.commitments@,
                    world@.npcs[j],
                ) == choose_dir(world@, dm0, world@.entity_of(world@.npcs[j]).coord) by {
                    if j < k {
                        assert(world@.npcs[j] != id);
                    }
                }
            }
            k += 1;
        }
        let mut s = Gws {
            world,
            visible_area: VisibleArea::new(size),
            pathfinding,
            player_id,
            animation: Vec::new(),
            turn: Turn::Player,
        };
        proof {
            assert forall|id: EntityId|
                (id as int) < s.world@.entities.len() && s.world@.entity_of(id).is_npc_entity()
                implies #[trigger] commitment_of(s.pathfinding.commitments@, id) == choose_dir(
                s.world@,
                s.pathfinding.distance_map@,
                s.world@.entity_of(id).coord,
            ) by {
                assert(s.world@.npcs.contains(id));
                let j = choose|j: int| 0 <= j < s.world@.npcs.len() && s.world@.npcs[j] == id;
                assert(commitment_of(s.pathfinding.commitments@, s.world@.npcs[j]) == choose_dir(
                    s.world@,
                    dm0,
                    s.world@.entity_of(s.world@.npcs[j]).coord,
                ));
            }
            assert forall|id: EntityId|
                ((id as int) >= s.world@.entities.len() || !s.world@.entity_of(
                    id,
                ).is_npc_entity()) implies #[trigger] commitment_of(
                s.pathfinding.commitments@,
                id,
            ) is None by {
                if exists|j: int| 0 <= j < s.world@.npcs.len() && s.world@.npcs[j] == id {
                    let j = choose|j: int|
                        0 <= j < s.world@.npcs.len() && s.world@.npcs[j] == id;
                    assert(s.world@.entity_of(id).is_npc_entity());
                }
            }
        }
        s.update_visible_area();
        s
    }

    /// The player's entity.
    pub fn player(&self) -> (r: &Entity)
        requires
            self.wf(),
        ensures
            *r == self.world@.entity_of(self.player_id),
    {
        self.world.entity(self.player_id)
    }

    /// Refreshes the visibility memory from the player's coordinate.
    fn update_visible_area(&mut self)
        requires
            old(self).wf(),
        ensures
            final(self).wf(),
            final(self).world == old(self).world,
            final(self).pathfinding == old(self).pathfinding,
            final(self).player_id == old(self).player_id,
            final(self).animation == old(self).animation,
            final(self).turn == old(self).turn,
            vision_updated_ok(
                old(self).visible_area,
                final(self).visible_area,
                old(self).world@,
                old(self).world@.entity_of(old(self).player_id).coord,
            ),
    {
        let origin = self.world.entity(self.player_id).coord;
        self.visible_area.update(origin, &self.world);
    }

    /// Resolves one player input against the store.
    fn player_turn(&mut self, input: Input) -> (r: PlayerTurn)
        requires
            old(self).wf(),
        ensures
            final(self).wf(),
            final(self).pathfinding == old(self).pathfinding,
            final(self).visible_area == old(self).visible_area,
            final(self).player_id == old(self).player_id,
            final(self).animation == old(self).animation,
            final(self).turn == old(self).turn,
            ({
                let step = old(self).world@.move_spec(
                    old(self).player_id,
                    input->Move_0,
                );
                match step.outcome {
                    MoveOutcome::Blocked => final(self).world@ == old(self).world@ && (r
                        is Cancelled),
                    MoveOutcome::Attack { victim } => final(self).world@ == step.post && r == (
                    PlayerTurn::Animation(Animation::damage_spec(victim, input->Move_0))),
                    MoveOutcome::Moved => final(self).world@ == step.post && (r is Done),
                }
            }),
    {
        match input {
            Input::Move(direction) => {
                match self.world.move_entity_in_direction(self.player_id, direction) {
                    Ok(ApplyAction::Done) => PlayerTurn::Done,
                    Ok(ApplyAction::Animation(animation)) => PlayerTurn::Animation(animation),
                    Err(_) => PlayerTurn::Cancelled,
                }
            },
        }
    }

    /// Executes every committed NPC move in id order through the store,
    /// updates the player-coordinate cache, and recommits each NPC that
    /// can currently see the player; the rest keep their commitments.
    fn engine_turn(&mut self)
        requires
            old(self).wf(),
        ensures
            final(self).wf(),
            final(self).visible_area == old(self).visible_area,
            final(self).player_id == old(self).player_id,
            final(self).turn == old(self).turn,
            final(self).world@ == run_moves(
                old(self).world@,
                committed_of(old(self).pathfinding.commitments@),
            ).0,
            final(self).animation@ == old(self).animation@ + run_moves(
                old(self).world@,
                committed_of(old(self).pathfinding.commitments@),
            ).1,
            recommit_ok(
                old(self).pathfinding,
                final(self).pathfinding,
                final(self).world@,
                old(self).player_id,
            ),
    {
        let moves = self.pathfinding.committed_movements();
        let ghost mseq = committed_of(self.pathfinding.commitments@);
        let ghost w0 = self.world@;
        proof {
            lemma_committed_of_elems(self.pathfinding.commitments@);
            assert(mseq.take(0) =~= Seq::<(EntityId, CardinalDirection)>::empty());
        }
        let mn = moves.len();
        let mut i: usize = 0;
        while i < mn
            invariant
                mn == mseq.len(),
                moves@ == mseq,
                i <= mn,
                self.world@.wf(),
                self.world@ == run_moves(w0, mseq.take(i as int)).0,
                self.animation@ == old(self).animation@ + run_moves(w0, mseq.take(i as int)).1,
                self.world@.entities.len() == w0.entities.len(),
                self.world@.size == w0.size,
                forall|j2: int|
                    0 <= j2 < self.world@.entities.len() ==> ((
                    #[trigger] self.world@.entities[j2]).foreground == w0.entities[j2].foreground
                        && (self.world@.entities[j2].hit_points is Some) == (
                    w0.entities[j2].hit_points is Some)),
                self.pathfinding == old(self).pathfinding,
                self.visible_area == old(self).visible_area,
                self.player_id == old(self).player_id,
                self.turn == old(self).turn,
                w0 == old(self).world@,
                forall|j: int|
                    0 <= j < mseq.len() ==> ((#[trigger] mseq[j]).0 as int)
                        < w0.entities.len(),
                forall|j: int|
                    0 <= j < self.animation@.len() ==> ((
                    #[trigger] self.animation@[j]).state.target_id() as int)
                        < w0.entities.len(),
            decreases mn - i,
        {
            let id = moves[i].0;
            let d = moves[i].1;
            let ghost pre = self.world@;
            let ghost step = pre.move_spec(id, d);
            proof {
                lemma_run_moves_snoc(w0, mseq.take(i as int), mseq[i as int]);
                assert(mseq.take(i as int).push(mseq[i as int]) =~= mseq.take(i as int + 1));
                match step.outcome {
                    MoveOutcome::Attack { victim } => {
                        let dst = d.step_spec(pre.entity_of(id).coord);
                        pre.size.lemma_index_of_bounds(dst);
                        lemma_first_damageable_contains(pre.cell_at(dst).ids, pre.entities);
                        assert(pre.cell_at(dst).ids.contains(victim));
                        let kk = choose|kk: int|
                            0 <= kk < pre.cell_at(dst).ids.len() && pre.cell_at(dst).ids[kk]
                                == victim;
                        assert((victim as int) < pre.entities.len());
                    },
                    _ => {},
                }
            }
            match self.world.move_entity_in_direction(id, d) {
                Ok(ApplyAction::Done) => {},
                Ok(ApplyAction::Animation(animation)) => {
                    self.animation.push(animation);
                },
                Err(_) => {},
            }
            proof {
                assert(self.animation@ =~= old(self).animation@ + run_moves(
                    w0,
                    mseq.take(i as int + 1),
                ).1);
            }
            i += 1;
        }
        proof {
            assert(mseq.take(mn as int) =~= mseq);
        }
        let player_coord = self.world.entity(self.player_id).coord;
        self.pathfinding.update_player_coord(player_coord, &self.world);
        let ghost world_mid = self.world;
        let ghost anim_mid = self.animation;
        let ghost pf0 = old(self).pathfinding;
        let ghost dm0 = self.pathfinding.distance_map@;
        let nn = self.world.npcs.len();
        let mut k: usize = 0;
        while k < nn
            invariant
                self.world@.wf(),
                self.world@.entities.len() < 0x0100_0000,
                nn == self.world@.npcs.len(),
                k <= nn,
                self.pathfinding.wf(),
                self.pathfinding.size == self.world@.size,
                self.pathfinding.player_coord == player_coord,
                player_coord == self.world@.entity_of(self.player_id).coord,
                self.pathfinding.synced(self.world@),
                self.pathfinding.distance_map@ == dm0,
                (self.player_id as int) < self.world@.entities.len(),
                self.pathfinding.commitments@.len() < 0x0100_0000,
                forall|id: int|
                    0 <= id < self.pathfinding.commitments@.len() && (
                    #[trigger] self.pathfinding.commitments@[id]) is Some ==> id
                        < self.world@.entities.len(),
                forall|j: int|
                    0 <= j < k ==> #[trigger] commitment_of(
                        self.pathfinding.commitments@,
                        self.world@.npcs[j],
                    ) == (if self.world@.sees(
                        self.world@.entity_of(self.world@.npcs[j]).coord,
                        player_coord,
                        NPC_VISION_RANGE as int,
                    ) {
                        choose_dir(
                            self.world@,
                            dm0,
                            self.world@.entity_of(self.world@.npcs[j]).coord,
                        )
                    } else {
                        commitment_of(pf0.commitments@, self.world@.npcs[j])
                    }),
                forall|id: EntityId|
                    !(exists|j: int| 0 <= j < k && self.world@.npcs[j] == id)
                        ==> #[trigger] commitment_of(self.pathfinding.commitments@, id)
                        == commitment_of(pf0.commitments@, id),
                self.visible_area == old(self).visible_area,
                self.player_id == old(self).player_id,
                self.turn == old(self).turn,
                self.animation == anim_mid,
                self.world == world_mid,
            decreases nn - k,
        {
            let id = self.world.npcs[k];
            let npc_coord = self.world.entity(id).coord;
            proof {
                assert(self.world@.size.contains(self.world@.entities[id as int].coord));
                assert(self.world@.size.contains(
                    self.world@.entities[self.player_id as int].coord,
                ));
            }
            if self.world.can_see(npc_coord, player_coord, NPC_VISION_RANGE) {
                self.pathfinding.commit_to_moving_towards_player(id, &self.world);
            }
            proof {
                assert forall|j: int|
                    0 <= j < k + 1 implies #[trigger] commitment_of(
                    self.pathfinding.commitments@,
                    self.world@.npcs[j],
                ) == (if self.world@.sees(
                    self.world@.entity_of(self.world@.npcs[j]).coord,
                    player_coord,
                    NPC_VISION_RANGE as int,
                ) {
                    choose_dir(self.world@, dm0, self.world@.entity_of(self.world@.npcs[j]).coord)
                } else {
                    commitment_of(pf0.commitments@, self.world@.npcs[j])
                }) by {
                    if j < k {
                        assert(self.world@.npcs[j] != id);
                    }
                }
            }
            k += 1;
        }
        proof {
            assert forall|id: EntityId|
                (id as int) < self.world@.entities.len() && self.world@.entity_of(
                    id,
                ).is_npc_entity() implies #[trigger] commitment_of(
                self.pathfinding.commitments@,
                id,
            ) == (if self.world@.sees(
                self.world@.entity_of(id).coord,
                self.world@.entity_of(self.player_id).coord,
                NPC_VISION_RANGE as int,
            ) {
                choose_dir(self.world@, self.pathfinding.distance_map@, self.world@.entity_of(id).coord)
            } else {
                commitment_of(pf0.commitments@, id)
            }) by {
                assert(self.world@.npcs.contains(id));
                let j = choose|j: int|
                    0 <= j < self.world@.npcs.len() && self.world@.npcs[j] == id;
                assert(commitment_of(self.pathfinding.commitments@, self.world@.npcs[j]) == (
                if self.world@.sees(
                    self.world@.entity_of(self.world@.npcs[j]).coord,
                    player_coord,
                    NPC_VISION_RANGE as int,
                ) {
                    choose_dir(self.world@, dm0, self.world@.entity_of(self.world@.npcs[j]).coord)
                } else {
                    commitment_of(pf0.commitments@, self.world@.npcs[j])
                }));
            }
            assert forall|id: EntityId|
                ((id as int) >= self.world@.entities.len() || !self.world@.entity_of(
                    id,
                ).is_npc_entity()) implies #[trigger] commitment_of(
                self.pathfinding.commitments@,
                id,
            ) == commitment_of(pf0.commitments@, id) by {
                if exists|j: int|
                    0 <= j < self.world@.npcs.len() && self.world@.npcs[j] == id {
                    let j = choose|j: int|
                        0 <= j < self.world@.npcs.len() && self.world@.npcs[j] == id;
                    assert(self.world@.entity_of(id).is_npc_entity());
                }
            }
        }
    }
}

impl Gws {
    /// Advances the newest queued animation by `period_ms` of elapsed real
    /// time: it fires when its delay is exhausted (possibly queuing a
    /// follow-up), else its remaining delay shrinks.
    pub fn animate(&mut self, period_ms: u64)
        requires
            old(self).wf(),
        ensures
            final(self).wf(),
            final(self).world@ == animate_spec(old(self).core_state(), period_ms).world,
            final(self).animation@ == animate_spec(old(self).core_state(), period_ms).anims,
            final(self).turn == old(self).turn,
            final(self).pathfinding == old(self).pathfinding,
            final(self).visible_area == old(self).visible_area,
            final(self).player_id == old(self).player_id,
    {
        match self.animation.pop() {
            Some(a) => {
                match a.tick(period_ms, &mut self.world) {
                    Some(a2) => {
                        self.animation.push(a2);
                        proof {
                            assert(self.animation@ =~= animate_spec(
                                old(self).core_state(),
                                period_ms,
                            ).anims);
                        }
                    },
                    None => {
                        proof {
                            assert(self.animation@ =~= animate_spec(
                                old(self).core_state(),
                                period_ms,
                            ).anims);
                        }
                    },
                }
            },
            None => {},
        }
    }

    /// Evaluates the end conditions: level exit when the player shares a
    /// cell with a stairs entity (packaging the player for carry-over),
    /// death when the player's hit points are exactly zero.
    fn check_end(&self) -> (r: Option<End>)
        requires
            self.wf(),
        ensures
            r == end_spec(self.world@, self.player_id),
    {
        let c = self.world.entity(self.player_id).coord;
        proof {
            assert(self.world@.size.contains(
                self.world@.entities[self.player_id as int].coord,
            ));
            self.world.size.lemma_index_of_bounds(c);
        }
        let ci = self.world.size.index(c);
        let en = self.world.entities.len();
        let n = self.world.cells[ci].entity_ids.len();
        let ghost ids = self.world@.cell_at(c).ids;
        proof {
            assert(ids == self.world.cells@[ci as int].entity_ids@);
        }
        let mut j: usize = 0;
        while j < n
            invariant
                self.wf(),
                c == self.world@.entity_of(self.player_id).coord,
                ci == self.world@.size.index_of(c),
                0 <= ci < self.world@.cells.len(),
                en == self.world@.entities.len(),
                j <= n,
                n == ids.len(),
                ids == self.world@.cell_at(c).ids,
                ids == self.world.cells@[ci as int].entity_ids@,
                forall|k: int|
                    0 <= k < j ==> self.world@.entity_of(#[trigger] ids[k]).foreground != Some(
                        ForegroundTile::Stairs,
                    ),
            decreases n - j,
        {
            let id = self.world.cells[ci].entity_ids[j];
            proof {
                assert(id == ids[j as int]);
                assert((id as int) < self.world@.entities.len());
            }
            let is_stairs = match self.world.entities[id as usize].foreground {
                Some(ForegroundTile::Stairs) => true,
                _ => false,
            };
            if is_stairs {
                proof {
                    assert(self.world@.entity_of(ids[j as int]).foreground == Some(
                        ForegroundTile::Stairs,
                    ));
                }
                return Some(
                    End::ExitLevel(
                        BetweenLevels { player: self.world.pack_entity(self.player_id) },
                    ),
                );
            }
            j += 1;
        }
        let hp = match self.world.entity(self.player_id).hit_points {
            Some(hp) => hp,
            None => {
                // unreachable: a well-formed core's player always has hit points
                proof {
                    assert(false);
                }
                crate::tiles::HitPoints { num: 1, max: 1 }
            },
        };
        if hp.num == 0 {
            Some(End::PlayerDied)
        } else {
            None
        }
    }

    /// One deterministic per-tick update: advance the newest animation by
    /// the elapsed time; only with no animation pending, resolve at most
    /// one player input; only with still none pending, run the full engine
    /// turn; drain a zero-delay animation queued this tick; refresh
    /// visibility from the player's coordinate; and report a terminal
    /// outcome, if any.
    pub fn tick(&mut self, inputs: &Vec<Input>, period_ms: u64) -> (r: Option<End>)
        requires
            old(self).wf(),
        ensures
            final(self).wf(),
            final(self).player_id == old(self).player_id,
            ({
                let s0 = old(self).core_state();
                let s1 = animate_spec(s0, period_ms);
                let s2 = if s1.anims.len() == 0 && s1.turn == Turn::Player {
                    player_phase_spec(s1, old(self).player_id, first_input(inputs@))
                } else {
                    s1
                };
                let engine_runs = s2.anims.len() == 0 && s2.turn == Turn::Engine;
                let s3 = if engine_runs {
                    engine_moves_spec(s2, committed_of(old(self).pathfinding.commitments@))
                } else {
                    s2
                };
                let s4 = animate_spec(s3, 0);
                &&& final(self).world@ == s4.world
                &&& final(self).animation@ == s4.anims
                &&& final(self).turn == s4.turn
                &&& (!engine_runs ==> final(self).pathfinding == old(self).pathfinding)
                &&& (engine_runs ==> recommit_ok(
                    old(self).pathfinding,
                    final(self).pathfinding,
                    s3.world,
                    old(self).player_id,
                ))
                &&& vision_updated_ok(
                    old(self).visible_area,
                    final(self).visible_area,
                    s4.world,
                    s4.world.entity_of(old(self).player_id).coord,
                )
                &&& r == end_spec(s4.world, old(self).player_id)
            }),
    {
        let ghost s0 = old(self).core_state();
        let ghost s1 = animate_spec(s0, period_ms);
        self.animate(period_ms);
        proof {
            assert(self.core_state() =~~= s1);
        }
        let ghost s2 = if s1.anims.len() == 0 && s1.turn == Turn::Player {
            player_phase_spec(s1, old(self).player_id, first_input(inputs@))
        } else {
            s1
        };
        if self.animation.len() == 0 {
            if self.turn == Turn::Player {
                if inputs.len() > 0 {
                    let input = inputs[0];
                    match self.player_turn(input) {
                        PlayerTurn::Cancelled => {},
                        PlayerTurn::Done => {
                            self.turn = Turn::Engine;
                        },
                        PlayerTurn::Animation(animation) => {
                            proof {
                                let dd = input->Move_0;
                                let w = s1.world;
                                let stepg = w.move_spec(old(self).player_id, dd);
                                match stepg.outcome {
                                    MoveOutcome::Attack { victim } => {
                                        let dst = dd.step_spec(
                                            w.entity_of(old(self).player_id).coord,
                                        );
                                        w.size.lemma_index_of_bounds(dst);
                                        lemma_first_damageable_contains(
                                            w.cell_at(dst).ids,
                                            w.entities,
                                        );
                                        assert(w.cell_at(dst).ids.contains(victim));
                                        let kk = choose|kk: int|
                                            0 <= kk < w.cell_at(dst).ids.len() && w.cell_at(
                                                dst,
                                            ).ids[kk] == victim;
                                        assert((victim as int) < w.entities.len());
                                    },
                                    _ => {},
                                }
                            }
                            self.turn = Turn::Engine;
                            self.animation.push(animation);
                        },
                    }
                }
            }
        }
        proof {
            assert(self.core_state() =~~= s2);
        }
        let ghost engine_runs = s2.anims.len() == 0 && s2.turn == Turn::Engine;
        let ghost s3 = if engine_runs {
            engine_moves_spec(s2, committed_of(old(self).pathfinding.commitments@))
        } else {
            s2
        };
        if self.animation.len() == 0 {
            if self.turn == Turn::Engine {
                self.engine_turn();
                self.turn = Turn::Player;
            }
        }
        proof {
            assert(self.core_state() =~~= s3);
        }
        let ghost s4 = animate_spec(s3, 0);
        self.animate(0);
        proof {
            assert(self.core_state() =~~= s4);
        }
        self.update_visible_area();
        self.check_end()
    }

    /// A read-only bundle for one render pass: the store, the visibility
    /// flags, the player, and the cells NPCs are committed to step into.
    pub fn to_render(&self) -> (r: ToRender)
        requires
            self.wf(),
        ensures
            *r.world == self.world,
            *r.visible_area == self.visible_area,
            *r.player == self.world@.entity_of(self.player_id),
            r.commitment_grid.size == self.world@.size,
            r.commitment_grid.cells@.len() == self.world@.size.area(),
            forall|ci: int|
                0 <= ci < r.commitment_grid.cells@.len() ==> ((
                #[trigger] r.commitment_grid.cells@[ci]) == exists|id: int|
                    0 <= id < self.pathfinding.commitments@.len() && (
                    #[trigger] self.pathfinding.commitments@[id]) is Some && {
                        let dest = self.pathfinding.commitments@[id].unwrap().step_spec(
                            self.world@.entities[id].coord,
                        );
                        self.world@.size.contains(dest) && self.world@.size.index_of(dest) == ci
                    }),
    {
        ToRender {
            world: &self.world,
            visible_area: &self.visible_area,
            player: self.world.entity(self.player_id),
            commitment_grid: self.pathfinding.commitment_grid(&self.world),
        }
    }
}

/// The death half of a two-phase damage effect, in general: with the
/// pending animation being the damage-end phase against the player, one
/// hit point left, enough elapsed time, no input and the turn with the
/// player, the tick's phase pipeline clears the recoil marker, drops the
/// hit points to zero, and — the player's cell holding no stairs — ends
/// with a world whose end condition reports death. `tick`'s ensures pins
/// its final world and result to this same pipeline, so the tick itself
/// returns the death report.
pub proof fn lemma_damage_end_reports_death(g: Gws, inputs: Seq<Input>, period_ms: u64)
    requires
        g.wf(),
        g.turn == Turn::Player,
        inputs.len() == 0,
        g.animation@.len() == 1,
        g.animation@[0].state == (AnimationState::DamageEnd { id: g.player_id }),
        period_ms >= g.animation@[0].next_update_in_ms,
        g.world@.entity_of(g.player_id).hit_points.unwrap().num == 1,
        !(exists|j: int|
            0 <= j < g.world@.cell_at(g.world@.entity_of(g.player_id).coord).ids.len()
                && g.world@.entity_of(
                #[trigger] g.world@.cell_at(g.world@.entity_of(g.player_id).coord).ids[j],
            ).foreground == Some(ForegroundTile::Stairs)),
    ensures
        ({
            let s1 = animate_spec(g.core_state(), period_ms);
            let s2 = if s1.anims.len() == 0 && s1.turn == Turn::Player {
                player_phase_spec(s1, g.player_id, first_input(inputs))
            } else {
                s1
            };
            let engine_runs = s2.anims.len() == 0 && s2.turn == Turn::Engine;
            let s3 = if engine_runs {
                engine_moves_spec(s2, committed_of(g.pathfinding.commitments@))
            } else {
                s2
            };
            let s4 = animate_spec(s3, 0);
            &&& s4.anims.len() == 0
            &&& s4.world.entity_of(g.player_id).hit_points.unwrap().num == 0
            &&& s4.world.entity_of(g.player_id).taking_damage_in_direction is None
            &&& end_spec(s4.world, g.player_id) == Some(End::PlayerDied)
        }),
{
    let pid = g.player_id;
    let s0 = g.core_state();
    let a = s0.anims.last();
    assert(a == g.animation@[0]);
    let w0 = s0.world;
    let w_set = w0.set_damage_dir_spec(pid, None);
    let w1 = w_set.deal_damage_spec(pid, 1);
    // the end phase fires: marker cleared, one point of damage, no follow-up
    assert(a.tick_spec(period_ms, w0).0 == w1);
    assert(a.tick_spec(period_ms, w0).1 is None);
    let s1 = animate_spec(s0, period_ms);
    assert(s1.anims =~= s0.anims.drop_last());
    assert(s1.anims.len() == 0);
    assert(s1.world == w1);
    assert(s1.turn == Turn::Player);
    assert(w_set.entity_of(pid).hit_points == w0.entity_of(pid).hit_points);
    assert(w0.entity_of(pid).hit_points is Some);
    assert(w1.entity_of(pid).hit_points.unwrap().num == 0);
    assert(w1.entity_of(pid).taking_damage_in_direction is None);
    // with no input and no pending animation, the later phases change nothing
    assert(first_input(inputs) is None);
    let s2 = player_phase_spec(s1, pid, first_input(inputs));
    assert(s2 == s1);
    let s4 = animate_spec(s1, 0);
    assert(s4 == s1);
    // the end check: same cells, same foregrounds, zero hit points
    let pc = w1.entity_of(pid).coord;
    assert(pc == w0.entity_of(pid).coord);
    assert(w1.cells == w0.cells);
    assert forall|ii: int| 0 <= ii < w1.entities.len() implies (
    #[trigger] w1.entities[ii]).foreground == w0.entities[ii].foreground by {}
    assert(w1.entities.len() == w0.entities.len());
    g.world@.size.lemma_index_of_bounds(pc);
    assert forall|j: int|
        0 <= j < w1.cell_at(pc).ids.len() implies w1.entity_of(
        #[trigger] w1.cell_at(pc).ids[j],
    ).foreground != Some(ForegroundTile::Stairs) by {
        assert(w1.cell_at(pc).ids == w0.cell_at(pc).ids);
        assert((w0.cell_at(pc).ids[j] as int) < w0.entities.len());
        assert(w0.entity_of(w0.cell_at(pc).ids[j]).foreground != Some(ForegroundTile::Stairs));
    }
    assert(end_spec(w1, pid) == Some(End::PlayerDied));
}

} // verus!
