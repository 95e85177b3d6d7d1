use turn_engine::actions::Action;
use turn_engine::ai::MOVE_SCORE;
use turn_engine::ai::PATH_BONUS;
use turn_engine::ai::PossibleAction;
use turn_engine::ai::npc_action;
use turn_engine::ai::plan_walk;
use turn_engine::ai::score_moves;
use turn_engine::grid::Coord;
use turn_engine::grid::IVec2Serialized;
use turn_engine::grid::ortho_directions;
use turn_engine::pathfinding::find_path;
use turn_engine::pokemon_data::PokemonLevelSkill;
use turn_engine::pokemon_data::skills_known_at;

fn c(x: i32, y: i32) -> Coord {
    Coord { x, y }
}

fn grid(w: i32, h: i32) -> Vec<Coord> {
    let mut v = Vec::new();
    for x in 0..w {
        for y in 0..h {
            v.push(c(x, y));
        }
    }
    v
}

#[test]
fn find_path_straight_line() {
    let walkable = grid(4, 1);
    let blocked: Vec<Coord> = Vec::new();
    let p = find_path(c(0, 0), c(3, 0), &walkable, &blocked).expect("path must exist");
    assert_eq!(p, vec![c(0, 0), c(1, 0), c(2, 0), c(3, 0)]);
}

#[test]
fn find_path_around_obstacle() {
    let walkable = grid(3, 3);
    // wall down the middle column except the top row
    let blocked = vec![c(1, 0), c(1, 1)];
    let p = find_path(c(0, 0), c(2, 0), &walkable, &blocked).expect("path must exist");
    assert_eq!(p.first(), Some(&c(0, 0)));
    assert_eq!(p.last(), Some(&c(2, 0)));
    // the detour goes over (1,2), the only open middle-column tile,
    // and is a shortest route
    assert!(p.contains(&c(1, 2)));
    assert_eq!(p.len(), 7);
    for w in p.windows(2) {
        let dx = (w[1].x - w[0].x).abs();
        let dy = (w[1].y - w[0].y).abs();
        assert_eq!(dx + dy, 1);
    }
}

#[test]
fn find_path_none_when_walled_off() {
    let walkable = grid(3, 1);
    let blocked = vec![c(1, 0)];
    assert!(find_path(c(0, 0), c(2, 0), &walkable, &blocked).is_none());
}

#[test]
fn find_path_trivial_when_start_is_goal() {
    let walkable = grid(1, 1);
    let blocked: Vec<Coord> = Vec::new();
    let p = find_path(c(0, 0), c(0, 0), &walkable, &blocked).expect("path must exist");
    assert_eq!(p, vec![c(0, 0)]);
}

#[test]
fn find_path_reaches_blocked_goal() {
    // The goal tile is occupied (the player stands there) but is
    // still a valid walking target.
    let walkable = grid(3, 1);
    let blocked = vec![c(2, 0)];
    let p = find_path(c(0, 0), c(2, 0), &walkable, &blocked).expect("path must exist");
    assert_eq!(p, vec![c(0, 0), c(1, 0), c(2, 0)]);
}

#[test]
fn find_path_deterministic_across_invocations() {
    let walkable = grid(5, 5);
    let blocked = vec![c(1, 1), c(2, 2), c(3, 1), c(1, 3)];
    let first = find_path(c(0, 0), c(4, 4), &walkable, &blocked);
    for _ in 0..10 {
        let again = find_path(c(0, 0), c(4, 4), &walkable, &blocked);
        assert_eq!(first, again);
    }
}

#[test]
fn score_moves_path_bonus_beats_any_jitter() {
    // The move onto the path scores 65; off-path moves score in
    // 40..50 whatever the jitter draw.
    let position = c(0, 0);
    let path = Some(vec![c(0, 0), c(1, 0), c(2, 0)]);
    let jitters = vec![-10, -1, -5, -10];
    let scored = score_moves(9, position, &path, &jitters);
    assert_eq!(scored.len(), 4);
    // enumeration order: north, south, west, east
    assert_eq!(scored[0].score, MOVE_SCORE + jitters[0]);
    assert_eq!(scored[1].score, MOVE_SCORE + jitters[1]);
    assert_eq!(scored[2].score, MOVE_SCORE + jitters[2]);
    assert_eq!(scored[3].score, MOVE_SCORE + PATH_BONUS);
    for d in 0..3 {
        assert!(scored[3].score > scored[d].score);
    }
    match &scored[3].action {
        Action::Walk(w) => {
            assert_eq!(w.entity, 9);
            assert_eq!(w.from, position);
            assert_eq!(w.to, c(1, 0));
        },
        other => panic!("expected a walk candidate, got {:?}", other),
    }
}

#[test]
fn plan_walk_scores_stay_in_range() {
    // Off-path scores carry a jitter in -10..0; a result outside
    // 40..50 (or off the 65 bonus) would mean the jitter draw left
    // its promised range.
    let walkable = grid(4, 4);
    let occupied = vec![c(2, 0)];
    for _ in 0..20 {
        let scored = plan_walk(5, c(0, 0), c(3, 3), &walkable, &occupied);
        assert_eq!(scored.len(), 4);
        for pa in &scored {
            assert!(
                pa.score == MOVE_SCORE + PATH_BONUS
                    || (MOVE_SCORE - 10 <= pa.score && pa.score < MOVE_SCORE),
                "score out of range: {}",
                pa.score
            );
        }
    }
}

#[test]
fn npc_action_sorts_by_score_descending() {
    let mk = |score: i32, to: Coord| PossibleAction {
        score,
        action: Action::Walk(turn_engine::actions::WalkAction {
            entity: 3,
            to,
            from: c(0, 0),
        }),
    };
    let possible = vec![
        mk(42, c(0, 1)),
        mk(65, c(1, 0)),
        mk(40, c(0, -1)),
        mk(49, c(-1, 0)),
    ];
    let qa = npc_action(3, possible);
    assert_eq!(qa.entity, 3);
    let tos: Vec<Coord> = qa
        .performable_actions
        .iter()
        .map(|a| match a {
            Action::Walk(w) => w.to,
            other => panic!("expected walk, got {:?}", other),
        })
        .collect();
    assert_eq!(tos, vec![c(1, 0), c(-1, 0), c(0, 1), c(0, -1)]);
}

#[test]
fn npc_action_sort_is_stable_on_ties() {
    let mk = |score: i32, to: Coord| PossibleAction {
        score,
        action: Action::Walk(turn_engine::actions::WalkAction {
            entity: 3,
            to,
            from: c(0, 0),
        }),
    };
    let possible = vec![
        mk(44, c(0, 1)),
        mk(44, c(0, -1)),
        mk(50, c(1, 0)),
        mk(44, c(-1, 0)),
    ];
    let qa = npc_action(3, possible);
    let tos: Vec<Coord> = qa
        .performable_actions
        .iter()
        .map(|a| match a {
            Action::Walk(w) => w.to,
            _ => unreachable!(),
        })
        .collect();
    // ties keep their enumeration order
    assert_eq!(tos, vec![c(1, 0), c(0, 1), c(0, -1), c(-1, 0)]);
}

#[test]
fn ortho_directions_are_the_four_unit_steps() {
    let dirs = ortho_directions();
    assert_eq!(dirs, vec![c(0, 1), c(0, -1), c(-1, 0), c(1, 0)]);
}

#[test]
fn ivec2_serialized_round_trip() {
    let original = c(-7, 13);
    let stored = IVec2Serialized::from(original);
    let back = Coord::from(stored);
    assert_eq!(back, original);
    assert_eq!(stored, IVec2Serialized { x: -7, y: 13 });
}

#[test]
fn skills_known_at_counts_levels() {
    let skills = vec![
        PokemonLevelSkill { level: 1, skill: "tackle".to_string() },
        PokemonLevelSkill { level: 5, skill: "growl".to_string() },
        PokemonLevelSkill { level: 12, skill: "ember".to_string() },
    ];
    assert_eq!(skills_known_at(&skills, 0), 0);
    assert_eq!(skills_known_at(&skills, 1), 1);
    assert_eq!(skills_known_at(&skills, 5), 2);
    assert_eq!(skills_known_at(&skills, 99), 3);
}

#[test]
fn anim_key_defaults_to_idle() {
    assert_eq!(turn_engine::anim_key::AnimKey::default(), turn_engine::anim_key::AnimKey::Idle);
}
