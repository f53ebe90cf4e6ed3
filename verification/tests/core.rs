use gws::animation::Animation;
use gws::animation::AnimationState;
use gws::game::BetweenLevels;
use gws::game::End;
use gws::game::Gws;
use gws::game::Input;
use gws::game::Instruction;
use gws::game::TerrainDescription;
use gws::geom::CardinalDirection;
use gws::geom::Coord;
use gws::geom::Size;
use gws::pathfinding::PathfindingContext;
use gws::shell::AppView;
use gws::shell::MapView;
use gws::tiles::BackgroundTile;
use gws::tiles::ForegroundTile;
use gws::tiles::HitPoints;
use gws::vision::VisibleArea;
use gws::world::MoveError;
use gws::world::PackedEntity;
use gws::world::World;

fn c(x: i32, y: i32) -> Coord {
    Coord { x, y }
}

fn packed(fg: ForegroundTile, hp: Option<HitPoints>) -> PackedEntity {
    PackedEntity {
        background: None,
        foreground: Some(fg),
        hit_points: hp,
    }
}

fn corridor(width: u32) -> TerrainDescription {
    TerrainDescription {
        size: Size { width, height: 1 },
        player_coord: c(0, 0),
        instructions: Vec::new(),
    }
}

#[test]
fn occupancy_tracks_moves() {
    let mut w = World::new(Size {
        width: 3,
        height: 1,
    });
    let id = w.add_entity(c(0, 0), packed(ForegroundTile::Player, None));
    assert!(w.grid()[0].entity_ids.contains(&id));
    let r = w.move_entity_in_direction(id, CardinalDirection::East);
    assert!(r.is_ok());
    assert_eq!(w.entity(id).coord, c(1, 0));
    assert!(!w.grid()[0].entity_ids.contains(&id));
    assert!(w.grid()[1].entity_ids.contains(&id));
}

#[test]
fn blocked_move_is_noop() {
    let mut w = World::new(Size {
        width: 3,
        height: 1,
    });
    w.set_background(c(1, 0), BackgroundTile::StoneWall);
    let id = w.add_entity(c(0, 0), packed(ForegroundTile::Player, None));
    let cells_before = w.cells.clone();
    let entities_before = w.entities.clone();
    let r = w.move_entity_in_direction(id, CardinalDirection::East);
    assert!(matches!(r, Err(MoveError::Blocked)));
    assert_eq!(w.cells, cells_before);
    assert_eq!(w.entities, entities_before);
    // out of bounds is blocked too and equally silent
    let r2 = w.move_entity_in_direction(id, CardinalDirection::West);
    assert!(matches!(r2, Err(MoveError::Blocked)));
    assert_eq!(w.cells, cells_before);
    assert_eq!(w.entities, entities_before);
}

#[test]
fn move_determinism() {
    let build = || {
        let mut w = World::new(Size {
            width: 4,
            height: 2,
        });
        w.set_background(c(2, 0), BackgroundTile::BrickWall);
        let id = w.add_entity(c(1, 0), packed(ForegroundTile::Player, None));
        (w, id)
    };
    let (mut w1, id1) = build();
    let (mut w2, id2) = build();
    let r1 = w1.move_entity_in_direction(id1, CardinalDirection::South);
    let r2 = w2.move_entity_in_direction(id2, CardinalDirection::South);
    assert_eq!(r1.is_ok(), r2.is_ok());
    assert_eq!(w1.cells, w2.cells);
    assert_eq!(w1.entities, w2.entities);
}

#[test]
fn attack_does_not_relocate_attacker() {
    let mut w = World::new(Size {
        width: 3,
        height: 1,
    });
    let victim = w.add_entity(
        c(1, 0),
        packed(ForegroundTile::Player, Some(HitPoints { num: 5, max: 5 })),
    );
    let bruiser = w.add_entity(c(2, 0), packed(ForegroundTile::Bruiser, None));
    let r = w.move_entity_in_direction(bruiser, CardinalDirection::West);
    assert!(r.is_ok());
    // the attacker stays put; the victim is untouched until the animation fires
    assert_eq!(w.entity(bruiser).coord, c(2, 0));
    assert_eq!(w.entity(victim).hit_points, Some(HitPoints { num: 5, max: 5 }));
}

#[test]
fn deal_damage_floors_at_zero() {
    let mut w = World::new(Size {
        width: 1,
        height: 1,
    });
    let id = w.add_entity(
        c(0, 0),
        packed(ForegroundTile::Player, Some(HitPoints { num: 2, max: 10 })),
    );
    w.deal_damage(id, 5);
    assert_eq!(w.entity(id).hit_points, Some(HitPoints { num: 0, max: 10 }));
}

#[test]
fn can_see_blocked_by_wall() {
    let mut w = World::new(Size {
        width: 3,
        height: 1,
    });
    w.set_background(c(1, 0), BackgroundTile::IceWall);
    // the wall itself is visible, sight does not pass beyond it
    assert!(w.can_see(c(0, 0), c(1, 0), 16));
    assert!(!w.can_see(c(0, 0), c(2, 0), 16));
    assert!(w.can_see(c(0, 0), c(0, 0), 16));
}

#[test]
fn can_see_bounded_by_range() {
    let w = World::new(Size {
        width: 20,
        height: 1,
    });
    assert!(w.can_see(c(0, 0), c(16, 0), 16));
    assert!(!w.can_see(c(0, 0), c(17, 0), 16));
}

#[test]
fn monotonic_discovery() {
    let mut w = World::new(Size {
        width: 3,
        height: 1,
    });
    w.set_background(c(1, 0), BackgroundTile::StoneWall);
    let mut va = VisibleArea::new(Size {
        width: 3,
        height: 1,
    });
    va.update(c(0, 0), &w);
    let flags = va.iter();
    assert!(flags[0].is_discovered());
    assert!(flags[1].is_discovered());
    assert!(!flags[2].is_discovered());
    va.update(c(2, 0), &w);
    let flags = va.iter();
    // previously discovered cells stay discovered, whatever the origin
    assert!(flags[0].is_discovered());
    assert!(flags[1].is_discovered());
    assert!(flags[2].is_discovered());
    assert!(!flags[0].is_visible());
}

#[test]
fn commitment_first_step_of_shortest_path() {
    let mut w = World::new(Size {
        width: 3,
        height: 1,
    });
    let _player = w.add_entity(
        c(0, 0),
        packed(ForegroundTile::Player, Some(HitPoints { num: 10, max: 10 })),
    );
    let npc = w.add_entity(c(2, 0), packed(ForegroundTile::Bruiser, None));
    let mut pf = PathfindingContext::new(Size {
        width: 3,
        height: 1,
    });
    pf.update_player_coord(c(0, 0), &w);
    pf.commit_to_moving_towards_player(npc, &w);
    let moves = pf.committed_movements();
    assert_eq!(moves.len(), 1);
    assert_eq!(moves[0], (npc, CardinalDirection::West));
}

#[test]
fn commitment_cleared_when_no_path() {
    let mut w = World::new(Size {
        width: 3,
        height: 1,
    });
    w.set_background(c(1, 0), BackgroundTile::BrickWall);
    let _player = w.add_entity(
        c(0, 0),
        packed(ForegroundTile::Player, Some(HitPoints { num: 10, max: 10 })),
    );
    let npc = w.add_entity(c(2, 0), packed(ForegroundTile::Bruiser, None));
    let mut pf = PathfindingContext::new(Size {
        width: 3,
        height: 1,
    });
    pf.update_player_coord(c(0, 0), &w);
    pf.commit_to_moving_towards_player(npc, &w);
    assert_eq!(pf.committed_movements().len(), 0);
}

#[test]
fn scenario_exit_level() {
    let mut terrain = corridor(3);
    terrain
        .instructions
        .push(Instruction::AddEntity(c(2, 0), packed(ForegroundTile::Stairs, None)));
    let mut game = Gws::new(None, &terrain);
    let right = vec![Input::Move(CardinalDirection::East)];
    let r1 = game.tick(&right, 16);
    assert!(r1.is_none());
    assert_eq!(game.player().coord, c(1, 0));
    let r2 = game.tick(&right, 16);
    assert_eq!(game.player().coord, c(2, 0));
    match r2 {
        Some(End::ExitLevel(BetweenLevels { player })) => {
            // hit points carried over unchanged from entry
            assert_eq!(player.hit_points, Some(HitPoints { num: 10, max: 10 }));
        }
        _ => panic!("expected level exit"),
    }
}

#[test]
fn scenario_player_death() {
    let mut terrain = corridor(3);
    terrain
        .instructions
        .push(Instruction::AddEntity(c(2, 0), packed(ForegroundTile::Bruiser, None)));
    let hurt = PackedEntity {
        background: None,
        foreground: Some(ForegroundTile::Player),
        hit_points: Some(HitPoints { num: 1, max: 10 }),
    };
    let mut game = Gws::new(Some(BetweenLevels { player: hurt }), &terrain);
    // the player steps east; the engine turn moves the NPC onto the player's
    // cell, which resolves as an attack and starts the two-phase animation
    let right = vec![Input::Move(CardinalDirection::East)];
    let none: Vec<Input> = Vec::new();
    let r1 = game.tick(&right, 16);
    assert!(r1.is_none());
    assert_eq!(game.player().coord, c(1, 0));
    // the second phase fires after the damage delay and applies the damage
    let r2 = game.tick(&none, 400);
    assert_eq!(game.player().hit_points, Some(HitPoints { num: 0, max: 10 }));
    assert!(matches!(r2, Some(End::PlayerDied)));
    // a further tick reports death again without mutating the store
    let coords_before: Vec<Coord> = game.world.entities.iter().map(|e| e.coord).collect();
    let r3 = game.tick(&none, 16);
    assert!(matches!(r3, Some(End::PlayerDied)));
    let coords_after: Vec<Coord> = game.world.entities.iter().map(|e| e.coord).collect();
    assert_eq!(coords_before, coords_after);
}

#[test]
fn commitment_stickiness_out_of_sight() {
    let terrain = TerrainDescription {
        size: Size {
            width: 20,
            height: 1,
        },
        player_coord: c(0, 0),
        instructions: vec![Instruction::AddEntity(
            c(19, 0),
            packed(ForegroundTile::Bruiser, None),
        )],
    };
    let mut game = Gws::new(None, &terrain);
    let moves0 = game.pathfinding.committed_movements();
    assert_eq!(moves0.len(), 1);
    let (npc, dir0) = moves0[0];
    assert_eq!(dir0, CardinalDirection::West);
    // the player steps east; the NPC, 18 cells away and out of its
    // 16-cell sight range, executes and keeps its old commitment
    let right = vec![Input::Move(CardinalDirection::East)];
    let r = game.tick(&right, 16);
    assert!(r.is_none());
    assert_eq!(game.world.entity(npc).coord, c(18, 0));
    let moves1 = game.pathfinding.committed_movements();
    assert_eq!(moves1, vec![(npc, CardinalDirection::West)]);
}

#[test]
fn pack_round_trip_preserves_hit_points() {
    let mut w = World::new(Size {
        width: 2,
        height: 1,
    });
    let id = w.add_entity(
        c(0, 0),
        packed(ForegroundTile::Player, Some(HitPoints { num: 7, max: 10 })),
    );
    w.set_taking_damage_in_direction(id, Some(CardinalDirection::North));
    let packed_player = w.pack_entity(id);
    assert_eq!(packed_player.hit_points, Some(HitPoints { num: 7, max: 10 }));
    let terrain = corridor(4);
    let game = Gws::new(
        Some(BetweenLevels {
            player: packed_player,
        }),
        &terrain,
    );
    let player = game.player();
    assert_eq!(player.hit_points, Some(HitPoints { num: 7, max: 10 }));
    // transient per-level state was deliberately dropped
    assert_eq!(player.taking_damage_in_direction, None);
}

#[test]
fn commitment_grid_marks_destination() {
    let terrain = TerrainDescription {
        size: Size {
            width: 3,
            height: 1,
        },
        player_coord: c(0, 0),
        instructions: vec![Instruction::AddEntity(
            c(2, 0),
            packed(ForegroundTile::Bruiser, None),
        )],
    };
    let game = Gws::new(None, &terrain);
    let render = game.to_render();
    // the NPC at (2,0) is committed west, into cell (1,0)
    assert_eq!(render.commitment_grid.cells, vec![false, true, false]);
}

#[test]
fn map_view_glyphs() {
    let view = MapView;
    assert_eq!(view.view_cell(BackgroundTile::Floor, &Vec::new()), '.');
    assert_eq!(view.view_cell(BackgroundTile::StoneWall, &Vec::new()), '#');
    assert_eq!(
        view.view_cell(BackgroundTile::Floor, &vec![ForegroundTile::Player]),
        '@'
    );
    assert_eq!(
        view.view_cell(
            BackgroundTile::Floor,
            &vec![ForegroundTile::Spark, ForegroundTile::Stairs]
        ),
        '>'
    );
}

#[test]
fn app_view_set_size_is_inert() {
    // resizing the view changes nothing observable
    let mut view = AppView::new();
    view.set_size(Size {
        width: 80,
        height: 24,
    });
    view.set_size(Size {
        width: 1,
        height: 1,
    });
}

#[test]
fn animation_constructors() {
    let a = Animation::new(5, AnimationState::DamageEnd { id: 3 });
    assert_eq!(a.next_update_in_ms, 5);
    let d = Animation::damage(3, CardinalDirection::South);
    assert_eq!(d.next_update_in_ms, 0);
    assert!(matches!(
        d.state,
        AnimationState::DamageStart {
            id: 3,
            direction: CardinalDirection::South
        }
    ));
}

#[test]
fn auto_save_timer_fires_and_resets() {
    let mut timer = gws::shell::AutoSaveTimer::new();
    assert!(!timer.tick(3000));
    assert_eq!(timer.remaining_ms, 2000);
    assert!(timer.tick(2000));
    assert_eq!(timer.remaining_ms, 5000);
}

#[test]
fn only_first_input_is_consulted() {
    let terrain = corridor(5);
    let mut game = Gws::new(None, &terrain);
    let two = vec![
        Input::Move(CardinalDirection::East),
        Input::Move(CardinalDirection::East),
    ];
    // two inputs in one call move the player by one step only
    let r = game.tick(&two, 16);
    assert!(r.is_none());
    assert_eq!(game.player().coord, c(1, 0));
}

#[test]
fn cancelled_input_keeps_player_turn() {
    let mut terrain = corridor(3);
    terrain
        .instructions
        .push(Instruction::AddEntity(c(2, 0), packed(ForegroundTile::Stairs, None)));
    let mut game = Gws::new(None, &terrain);
    let left = vec![Input::Move(CardinalDirection::West)];
    let right = vec![Input::Move(CardinalDirection::East)];
    // walking off the west edge is blocked: nothing happens, twice over
    assert!(game.tick(&left, 16).is_none());
    assert!(game.tick(&left, 16).is_none());
    assert_eq!(game.player().coord, c(0, 0));
    // the turn stayed with the player, so a valid move still lands
    assert!(game.tick(&right, 16).is_none());
    assert_eq!(game.player().coord, c(1, 0));
}

#[test]
fn empty_tick_is_quiet() {
    let terrain = corridor(2);
    let mut game = Gws::new(None, &terrain);
    let none: Vec<Input> = Vec::new();
    assert!(game.tick(&none, 1000).is_none());
    assert_eq!(game.player().coord, c(0, 0));
    assert_eq!(game.player().hit_points, Some(HitPoints { num: 10, max: 10 }));
}
