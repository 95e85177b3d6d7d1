use turn_engine::action_animation::ActionAnimation;
use turn_engine::action_animation::anim_key_for;
use turn_engine::action_animation::animation_for;
use turn_engine::action_queue::ActionQueue;
use turn_engine::action_queue::OutEvent;
use turn_engine::action_queue::QueuedAction;
use turn_engine::action_queue::process_action_queue;
use turn_engine::actions::Action;
use turn_engine::actions::DamageAction;
use turn_engine::actions::SkipAction;
use turn_engine::actions::SpellAction;
use turn_engine::actions::WalkAction;
use turn_engine::anim_key::AnimKey;
use turn_engine::grid::Coord;
use turn_engine::grid::EntityId;
use turn_engine::spells::ProjectileSpell;
use turn_engine::spells::Spell;
use turn_engine::spells::SpellCast;
use turn_engine::spells::SpellHit;
use turn_engine::spells::SpellRange;
use turn_engine::spells::SpellType;
use turn_engine::world::GameMap;
use turn_engine::world::GameWorld;
use turn_engine::world::Piece;
use turn_engine::world::TerrainType;
use turn_engine::world::Tile;

fn c(x: i32, y: i32) -> Coord {
    Coord { x, y }
}

fn ground_map(w: i32, h: i32) -> GameMap {
    let mut tiles = Vec::new();
    for x in 0..w {
        for y in 0..h {
            tiles.push(Tile { position: c(x, y), terrain: TerrainType::Ground });
        }
    }
    GameMap { tiles }
}

fn piece(id: EntityId, at: Coord) -> Piece {
    Piece {
        id,
        position: Some(at),
        health: Some(10),
        occupier: true,
        facing: Some(c(1, 0)),
        running_action: None,
    }
}

fn walk(entity: EntityId, from: Coord, to: Coord) -> Action {
    Action::Walk(WalkAction { entity, to, from })
}

fn queue_of(entries: Vec<QueuedAction>) -> ActionQueue {
    let mut q = ActionQueue::new();
    for e in entries {
        q.push(e);
    }
    q
}

fn test_spell() -> Spell {
    Spell {
        name: "zap",
        range: SpellRange { start: 1, end: 3 },
        spell_type: SpellType::Projectile(ProjectileSpell { visual_effect: "bolt" }),
        hit: SpellHit { visual_effect: "burst", damage: 4 },
        cast: SpellCast { visual_effect: "glow", animation: AnimKey::Shoot },
    }
}

#[test]
fn fifo_with_priority_insertion() {
    // Queue [A, B]: A is a spell cast whose execution yields a
    // projectile follow-up; after processing A the follow-up entry
    // stands in front of B.
    let mut world = GameWorld {
        pieces: vec![piece(1, c(0, 0)), piece(2, c(0, 1))],
        map: ground_map(4, 4),
    };
    let spell = test_spell();
    let a = QueuedAction {
        entity: 1,
        performable_actions: vec![Action::Spell(SpellAction { caster: 1, spell })],
    };
    let b = QueuedAction { entity: 2, performable_actions: vec![Action::Skip(SkipAction)] };
    let mut queue = queue_of(vec![a, b.clone()]);
    let mut in_flight: u32 = 0;
    let events = process_action_queue(&mut world, &mut queue, &mut in_flight, &Vec::new());

    assert_eq!(queue.0.len(), 2);
    let front = &queue.0[0];
    assert_eq!(front.entity, 1);
    assert_eq!(front.performable_actions.len(), 1);
    match &front.performable_actions[0] {
        Action::SpellProjectile(p) => {
            assert_eq!(p.caster, 1);
        },
        other => panic!("expected a projectile follow-up, got {:?}", other),
    }
    assert_eq!(queue.0[1], b);
    assert_eq!(in_flight, 1);
    assert_eq!(events, vec![OutEvent::ProcessingAction { entity: 1 }]);
}

#[test]
fn dead_entity_skip() {
    // An entry for an actor at zero health is dropped whole: no
    // candidate executes, the would-be walk never happens.
    let mut dead = piece(1, c(0, 0));
    dead.health = Some(0);
    let mut world = GameWorld { pieces: vec![dead], map: ground_map(4, 4) };
    let entry = QueuedAction { entity: 1, performable_actions: vec![walk(1, c(0, 0), c(1, 0))] };
    let mut queue = queue_of(vec![entry]);
    let mut in_flight: u32 = 0;
    let events = process_action_queue(&mut world, &mut queue, &mut in_flight, &Vec::new());

    assert_eq!(world.pieces[0].position, Some(c(0, 0)));
    assert_eq!(world.pieces[0].running_action, None);
    assert_eq!(in_flight, 0);
    assert!(queue.0.is_empty());
    assert_eq!(events, vec![OutEvent::ProcessingAction { entity: 1 }]);
}

#[test]
fn fallback_order() {
    // Candidates [X(fails), Y(succeeds)]: X walks into a wall and
    // leaves no trace; Y executes.
    let mut map = ground_map(4, 4);
    map.tiles[4] = Tile { position: c(1, 0), terrain: TerrainType::Wall };
    let mut world = GameWorld { pieces: vec![piece(1, c(0, 0))], map };
    let x = walk(1, c(0, 0), c(1, 0));
    let y = walk(1, c(0, 0), c(0, 1));
    let entry = QueuedAction { entity: 1, performable_actions: vec![x, y.clone()] };
    let mut queue = queue_of(vec![entry]);
    let mut in_flight: u32 = 0;
    process_action_queue(&mut world, &mut queue, &mut in_flight, &Vec::new());

    assert_eq!(world.pieces[0].position, Some(c(0, 1)));
    assert_eq!(world.pieces[0].running_action, Some(y));
    assert_eq!(in_flight, 1);
}

#[test]
fn candidate_exhaustion_is_not_an_error() {
    // A candidate list where everything fails is silently dropped.
    let mut map = ground_map(2, 1);
    map.tiles[1] = Tile { position: c(1, 0), terrain: TerrainType::Wall };
    let mut world = GameWorld { pieces: vec![piece(1, c(0, 0))], map };
    let entry = QueuedAction { entity: 1, performable_actions: vec![walk(1, c(0, 0), c(1, 0))] };
    let mut queue = queue_of(vec![entry]);
    let mut in_flight: u32 = 0;
    let events = process_action_queue(&mut world, &mut queue, &mut in_flight, &Vec::new());

    assert!(queue.0.is_empty());
    assert_eq!(in_flight, 0);
    assert_eq!(world.pieces[0].position, Some(c(0, 0)));
    assert_eq!(events, vec![OutEvent::ProcessingAction { entity: 1 }]);
}

#[test]
fn parallel_fan_out() {
    // Two independent parallel walks both execute within one tick,
    // neither waiting on the other's animation.
    let mut world = GameWorld {
        pieces: vec![piece(1, c(0, 0)), piece(2, c(3, 3))],
        map: ground_map(4, 4),
    };
    let e1 = QueuedAction { entity: 1, performable_actions: vec![walk(1, c(0, 0), c(1, 0))] };
    let e2 = QueuedAction { entity: 2, performable_actions: vec![walk(2, c(3, 3), c(3, 2))] };
    let mut queue = queue_of(vec![e1, e2]);
    let mut in_flight: u32 = 0;
    let events = process_action_queue(&mut world, &mut queue, &mut in_flight, &Vec::new());

    assert_eq!(world.pieces[0].position, Some(c(1, 0)));
    assert_eq!(world.pieces[1].position, Some(c(3, 2)));
    assert_eq!(in_flight, 2);
    assert!(queue.0.is_empty());
    assert_eq!(
        events,
        vec![
            OutEvent::ProcessingAction { entity: 1 },
            OutEvent::ProcessingAction { entity: 2 }
        ]
    );
}

#[test]
fn blocking_stop() {
    // A non-parallel action's success halts dispatch: the second
    // entry only runs after the in-flight counter returns to zero.
    let mut world = GameWorld {
        pieces: vec![piece(1, c(0, 0)), piece(2, c(3, 3))],
        map: ground_map(4, 4),
    };
    let hit = QueuedAction {
        entity: 1,
        performable_actions: vec![Action::Damage(DamageAction(2, 3))],
    };
    let mv = QueuedAction { entity: 2, performable_actions: vec![walk(2, c(3, 3), c(3, 2))] };
    let mut queue = queue_of(vec![hit, mv.clone()]);
    let mut in_flight: u32 = 0;
    process_action_queue(&mut world, &mut queue, &mut in_flight, &Vec::new());

    // damage applied, but the walk has not happened yet
    assert_eq!(world.pieces[1].health, Some(7));
    assert_eq!(world.pieces[1].position, Some(c(3, 3)));
    assert_eq!(in_flight, 1);
    assert_eq!(queue.0.len(), 1);
    assert_eq!(queue.0[0], mv);

    // still stalled while the animation plays
    let stalled = process_action_queue(&mut world, &mut queue, &mut in_flight, &Vec::new());
    assert!(stalled.is_empty());
    assert_eq!(queue.0.len(), 1);

    // the animation-finished signal lets the next entry run
    let finished: Vec<EntityId> = vec![1];
    let events = process_action_queue(&mut world, &mut queue, &mut in_flight, &finished);
    assert_eq!(world.pieces[1].position, Some(c(3, 2)));
    assert!(queue.0.is_empty());
    assert_eq!(in_flight, 1);
    assert_eq!(
        events,
        vec![OutEvent::ProcessingAction { entity: 2 }, OutEvent::QueueProcessed]
    );
}

#[test]
fn stall_while_animations_outstanding() {
    // With the counter still positive after the drain, the tick does
    // nothing further.
    let mut world = GameWorld { pieces: vec![piece(1, c(0, 0))], map: ground_map(2, 2) };
    let entry = QueuedAction { entity: 1, performable_actions: vec![walk(1, c(0, 0), c(1, 0))] };
    let mut queue = queue_of(vec![entry.clone()]);
    let mut in_flight: u32 = 2;
    let finished: Vec<EntityId> = vec![1];
    let events = process_action_queue(&mut world, &mut queue, &mut in_flight, &finished);

    assert_eq!(in_flight, 1);
    assert!(events.is_empty());
    assert_eq!(queue.0.len(), 1);
    assert_eq!(queue.0[0], entry);
    assert_eq!(world.pieces[0].position, Some(c(0, 0)));
}

#[test]
fn queue_processed_signal_on_empty_queue() {
    // Draining the last outstanding animation with an empty queue
    // reports the turn as fully processed.
    let mut world = GameWorld { pieces: vec![piece(1, c(0, 0))], map: ground_map(2, 2) };
    let mut queue = queue_of(vec![]);
    let mut in_flight: u32 = 1;
    let finished: Vec<EntityId> = vec![1];
    let events = process_action_queue(&mut world, &mut queue, &mut in_flight, &finished);

    assert_eq!(in_flight, 0);
    assert_eq!(events, vec![OutEvent::QueueProcessed]);
}

#[test]
fn damage_kills_and_despawns() {
    let mut world = GameWorld {
        pieces: vec![piece(1, c(0, 0)), piece(2, c(1, 1))],
        map: ground_map(2, 2),
    };
    let hit = QueuedAction {
        entity: 1,
        performable_actions: vec![Action::Damage(DamageAction(2, 25))],
    };
    let mut queue = queue_of(vec![hit]);
    let mut in_flight: u32 = 0;
    process_action_queue(&mut world, &mut queue, &mut in_flight, &Vec::new());

    // saturating subtraction reached zero: the piece is despawned
    assert_eq!(world.pieces.len(), 1);
    assert_eq!(world.pieces[0].id, 1);
}

#[test]
fn damage_without_health_component_fails() {
    let mut target = piece(2, c(1, 1));
    target.health = None;
    let mut world = GameWorld {
        pieces: vec![piece(1, c(0, 0)), target],
        map: ground_map(2, 2),
    };
    let entry = QueuedAction {
        entity: 1,
        performable_actions: vec![Action::Damage(DamageAction(2, 5)), walk(1, c(0, 0), c(0, 1))],
    };
    let mut queue = queue_of(vec![entry]);
    let mut in_flight: u32 = 0;
    process_action_queue(&mut world, &mut queue, &mut in_flight, &Vec::new());

    // the damage candidate failed; the fallback walk ran instead
    assert_eq!(world.pieces[0].position, Some(c(0, 1)));
    assert_eq!(world.pieces[1].health, None);
}

#[test]
fn walk_updates_facing() {
    let mut world = GameWorld { pieces: vec![piece(1, c(1, 1))], map: ground_map(3, 3) };
    let entry = QueuedAction { entity: 1, performable_actions: vec![walk(1, c(1, 1), c(1, 0))] };
    let mut queue = queue_of(vec![entry]);
    let mut in_flight: u32 = 0;
    process_action_queue(&mut world, &mut queue, &mut in_flight, &Vec::new());

    assert_eq!(world.pieces[0].position, Some(c(1, 0)));
    assert_eq!(world.pieces[0].facing, Some(c(0, -1)));
}

#[test]
fn walk_onto_occupied_tile_fails() {
    let mut world = GameWorld {
        pieces: vec![piece(1, c(0, 0)), piece(2, c(1, 0))],
        map: ground_map(2, 1),
    };
    let entry = QueuedAction { entity: 1, performable_actions: vec![walk(1, c(0, 0), c(1, 0))] };
    let mut queue = queue_of(vec![entry]);
    let mut in_flight: u32 = 0;
    process_action_queue(&mut world, &mut queue, &mut in_flight, &Vec::new());

    assert_eq!(world.pieces[0].position, Some(c(0, 0)));
    assert_eq!(in_flight, 0);
}

#[test]
fn spell_cast_targets_first_piece_in_range() {
    // Caster at (0,0) facing east, spell range 1..=3, a healthy piece
    // at (2,0): the projectile goes to (2,0), and on its execution a
    // damage follow-up hits that piece.
    let mut world = GameWorld {
        pieces: vec![piece(1, c(0, 0)), piece(2, c(2, 0))],
        map: ground_map(4, 1),
    };
    let cast = QueuedAction {
        entity: 1,
        performable_actions: vec![Action::Spell(SpellAction { caster: 1, spell: test_spell() })],
    };
    let mut queue = queue_of(vec![cast]);
    let mut in_flight: u32 = 0;
    process_action_queue(&mut world, &mut queue, &mut in_flight, &Vec::new());

    let target = match &queue.0[0].performable_actions[0] {
        Action::SpellProjectile(p) => p.target,
        other => panic!("expected projectile, got {:?}", other),
    };
    assert_eq!(target, c(2, 0));

    // let the cast animation finish, then the projectile flies;
    // the queue still holds work, so the tick reports it pending
    let finished: Vec<EntityId> = vec![1];
    let events = process_action_queue(&mut world, &mut queue, &mut in_flight, &finished);
    assert_eq!(
        events,
        vec![OutEvent::ProcessingAction { entity: 1 }, OutEvent::QueuePending]
    );
    // projectile executed (non-parallel): its damage follow-up is queued
    let dmg = match &queue.0[0].performable_actions[0] {
        Action::Damage(d) => *d,
        other => panic!("expected damage follow-up, got {:?}", other),
    };
    assert_eq!(dmg, DamageAction(2, 4));
    let finished2: Vec<EntityId> = vec![1];
    process_action_queue(&mut world, &mut queue, &mut in_flight, &finished2);
    assert_eq!(world.pieces[1].health, Some(6));
}

#[test]
fn end_to_end_walk_then_completion() {
    // Queue a walk for E from (0,0) to walkable unoccupied (1,0):
    // execute succeeds with no follow-ups, is parallel, so the loop
    // proceeds to the next entry in the same tick; the turn is
    // reported complete only after E's animation-finished signal.
    let mut world = GameWorld {
        pieces: vec![piece(7, c(0, 0)), piece(8, c(2, 2))],
        map: ground_map(3, 3),
    };
    let e_walk = QueuedAction { entity: 7, performable_actions: vec![walk(7, c(0, 0), c(1, 0))] };
    let other = QueuedAction { entity: 8, performable_actions: vec![Action::Skip(SkipAction)] };
    let mut queue = queue_of(vec![e_walk, other]);
    let mut in_flight: u32 = 0;
    let events = process_action_queue(&mut world, &mut queue, &mut in_flight, &Vec::new());

    // both entries ran in the same tick
    assert_eq!(
        events,
        vec![
            OutEvent::ProcessingAction { entity: 7 },
            OutEvent::ProcessingAction { entity: 8 }
        ]
    );
    assert_eq!(world.pieces[0].position, Some(c(1, 0)));
    assert_eq!(world.pieces[0].running_action, Some(walk(7, c(0, 0), c(1, 0))));
    assert_eq!(in_flight, 2);
    assert!(queue.0.is_empty());

    // both animations finish: the next tick reports the turn done
    let finished: Vec<EntityId> = vec![7, 8];
    let events = process_action_queue(&mut world, &mut queue, &mut in_flight, &finished);
    assert_eq!(in_flight, 0);
    assert_eq!(events, vec![OutEvent::QueueProcessed]);
}


#[test]
fn animation_dispatch_matches_action_kind() {
    let w = walk(1, c(0, 0), c(1, 0));
    let mv = animation_for(1, &w);
    assert_eq!(mv, ActionAnimation::Move { entity: 1, from: c(0, 0), to: c(1, 0) });
    assert_eq!(anim_key_for(&mv), AnimKey::Walk);

    let hurt = animation_for(1, &Action::Damage(DamageAction(2, 3)));
    assert_eq!(hurt, ActionAnimation::Hurt { target: 2 });
    assert_eq!(anim_key_for(&hurt), AnimKey::Hurt);

    let attack = animation_for(1, &Action::Spell(SpellAction { caster: 1, spell: test_spell() }));
    assert_eq!(attack, ActionAnimation::Attack { entity: 1 });
    assert_eq!(anim_key_for(&attack), AnimKey::Attack);

    let skip = animation_for(1, &Action::Skip(SkipAction));
    assert_eq!(skip, ActionAnimation::Finished);

    let proj = animation_for(
        1,
        &Action::SpellProjectile(turn_engine::actions::SpellProjectileAction {
            caster: 1,
            projectile: ProjectileSpell { visual_effect: "bolt" },
            spell: test_spell(),
            target: c(2, 0),
        }),
    );
    assert_eq!(proj, ActionAnimation::Projectile { visual_effect: "bolt", to: c(2, 0) });
}
