//! Utility planner for non-player actors.
//!
//! Each planning pass scores the four orthogonal moves of an actor: a
//! constant base score plus a small random penalty, except that a move
//! onto the computed path toward the player gets a fixed bonus instead
//! — biasing, but not forcing, path-following.  A later selection step
//! stable-sorts the scored candidates by descending score (ties keep
//! enumeration order) into the actor's fallback candidate list.

use vstd::prelude::*;
use crate::actions::Action;
use crate::actions::WalkAction;
use crate::action_queue::QueuedAction;
use crate::grid::Coord;
use crate::grid::EntityId;
use crate::grid::ortho_directions;
use crate::grid::ortho_directions_spec;
use crate::pathfinding::find_path;
use crate::pathfinding::path_ok;
use crate::pathfinding::reachable;
use crate::pathfinding::step_at;

verus! {

/// Base score of a plain move.
pub const MOVE_SCORE: i32 = 50;

/// Bonus a move gets when it lies on the path toward the target,
/// replacing the random penalty.
pub const PATH_BONUS: i32 = 15;

/// A scored candidate action; ephemeral, consumed by the selection
/// step within the same planning pass.
#[derive(Debug, Clone, Copy, PartialEq)]
pub struct PossibleAction {
    pub score: i32,
    pub action: Action,
}

/// The score of one candidate move: the path bonus overrides the
/// jitter whenever the move lies on the path to the target.
pub open spec fn walk_score(on_path: bool, jitter: i32) -> int {
    if on_path {
        MOVE_SCORE + PATH_BONUS
    } else {
        MOVE_SCORE + jitter
    }
}

/// Planner scoring bias: for any jitter draw, a candidate on the
/// computed path scores strictly higher than any candidate off it.
pub proof fn lemma_path_bias(j1: i32, j2: i32)
    requires
        -10 <= j2 < 0,
    ensures
        walk_score(true, j1) > walk_score(false, j2),
{
}

/// The scored walk candidate in direction `d` for the given actor.
pub open spec fn scored_move(
    entity: EntityId,
    position: Coord,
    path: Option<Seq<Coord>>,
    d: int,
    jitter: i32,
) -> PossibleAction {
    let to = step_at(position, ortho_directions_spec()[d]);
    let on_path = match path {
        Some(p) => p.contains(to),
        None => false,
    };
    PossibleAction {
        score: walk_score(on_path, jitter) as i32,
        action: Action::Walk(WalkAction { entity, to, from: position }),
    }
}

/// Relies on rand::thread_rng and rand::Rng::gen_range: a sample from
/// the non-empty range -10..0.  Of a random draw only the range is
/// promised.
#[verifier::external_body]
fn walk_jitter() -> (r: i32)
    ensures
        -10 <= r < 0,
{
    rand::Rng::gen_range(&mut rand::thread_rng(), -10..0)
}

/// Score the four orthogonal moves of `entity` at `position`, given
/// the path toward the target (if any) and one jitter draw per
/// direction.
pub fn score_moves(
    entity: EntityId,
    position: Coord,
    path: &Option<Vec<Coord>>,
    jitters: &Vec<i32>,
) -> (r: Vec<PossibleAction>)
    requires
        jitters@.len() == 4,
        forall|i: int| 0 <= i < 4 ==> -10 <= #[trigger] jitters@[i] < 0,
        i32::MIN < position.x < i32::MAX,
        i32::MIN < position.y < i32::MAX,
    ensures
        r@.len() == 4,
        forall|d: int|
            0 <= d < 4 ==> r@[d] == scored_move(
                entity,
                position,
                match *path {
                    Some(ref p) => Some(p@),
                    None => None,
                },
                d,
                jitters@[d],
            ),
{
    let dirs = ortho_directions();
    let mut r: Vec<PossibleAction> = Vec::new();
    let mut d: usize = 0;
    while d < 4
        invariant
            jitters@.len() == 4,
            forall|i: int| 0 <= i < 4 ==> -10 <= #[trigger] jitters@[i] < 0,
            i32::MIN < position.x < i32::MAX,
            i32::MIN < position.y < i32::MAX,
            dirs@ == ortho_directions_spec(),
            d <= 4,
            r@.len() == d,
            forall|e: int|
                0 <= e < d ==> r@[e] == scored_move(
                    entity,
                    position,
                    match *path {
                        Some(ref p) => Some(p@),
                        None => None,
                    },
                    e,
                    jitters@[e],
                ),
        decreases 4 - d,
    {
        let dir = dirs[d];
        let to = Coord { x: position.x + dir.x, y: position.y + dir.y };
        let on_path = match path {
            Some(p) => crate::pathfinding::coords_contain(p, to),
            None => false,
        };
        let score: i32 = if on_path {
            MOVE_SCORE + PATH_BONUS
        } else {
            MOVE_SCORE + jitters[d]
        };
        r.push(
            PossibleAction {
                score,
                action: Action::Walk(WalkAction { entity, to, from: position }),
            },
        );
        proof {
            assert(to == step_at(position, ortho_directions_spec()[d as int]));
        }
        d += 1;
    }
    r
}

/// One planning pass for one actor: find a path from its position to
/// the target (typically the nearest player actor) over the walkable
/// tiles, avoiding occupied ones, then score the four orthogonal
/// moves with fresh jitter draws.
///
/// The scores are pinned up to the path found and the jitters drawn:
/// some valid path (exactly when one exists) and some in-range jitter
/// sequence produce exactly these candidates.
/// What explains a planning result: the path found (present exactly
/// when the target is reachable, and then valid) and four in-range
/// jitter draws that together produce exactly these candidates.
pub open spec fn plan_explained(
    entity: EntityId,
    position: Coord,
    player_position: Coord,
    walkable: Seq<Coord>,
    occupied: Seq<Coord>,
    r: Seq<PossibleAction>,
    path: Option<Seq<Coord>>,
    jitters: Seq<i32>,
) -> bool {
    &&& (path is Some) == reachable(walkable, occupied, position, player_position)
    &&& (path matches Some(p) ==> path_ok(walkable, occupied, position, player_position, p))
    &&& jitters.len() == 4
    &&& (forall|i: int| 0 <= i < 4 ==> -10 <= #[trigger] jitters[i] < 0)
    &&& (forall|d: int|
        0 <= d < 4 ==> r[d] == #[trigger] scored_move(entity, position, path, d, jitters[d]))
}

pub fn plan_walk(
    entity: EntityId,
    position: Coord,
    player_position: Coord,
    walkable: &Vec<Coord>,
    occupied: &Vec<Coord>,
) -> (r: Vec<PossibleAction>)
    requires
        i32::MIN < position.x < i32::MAX,
        i32::MIN < position.y < i32::MAX,
    ensures
        r@.len() == 4,
        exists|path: Option<Seq<Coord>>, jitters: Seq<i32>| #[trigger] plan_explained(
            entity,
            position,
            player_position,
            walkable@,
            occupied@,
            r@,
            path,
            jitters,
        ),
{
    let path = find_path(position, player_position, walkable, occupied);
    let mut jitters: Vec<i32> = Vec::new();
    let mut k: usize = 0;
    while k < 4
        invariant
            k <= 4,
            jitters@.len() == k,
            forall|i: int| 0 <= i < k ==> -10 <= #[trigger] jitters@[i] < 0,
        decreases 4 - k,
    {
        jitters.push(walk_jitter());
        k += 1;
    }
    let r = score_moves(entity, position, &path, &jitters);
    proof {
        let pathv: Option<Seq<Coord>> = match path {
            Some(p) => Some(p@),
            None => None,
        };
        assert(plan_explained(
            entity,
            position,
            player_position,
            walkable@,
            occupied@,
            r@,
            pathv,
            jitters@,
        ));
    }
    r
}

/// Stable descending insertion of one candidate: it goes in front of
/// the first strictly lower score, so equal scores keep their
/// existing order.
pub open spec fn insert_desc(s: Seq<PossibleAction>, x: PossibleAction) -> Seq<PossibleAction>
    decreases s.len(),
{
    if s.len() == 0 {
        seq![x]
    } else if s[0].score < x.score {
        seq![x] + s
    } else {
        seq![s[0]] + insert_desc(s.drop_first(), x)
    }
}

/// Stable sort by score descending; ties keep the original
/// enumeration order.
pub open spec fn sort_desc(s: Seq<PossibleAction>) -> Seq<PossibleAction>
    decreases s.len(),
{
    if s.len() == 0 {
        s
    } else {
        insert_desc(sort_desc(s.drop_last()), s.last())
    }
}

/// Inserting below `j` leading higher-or-equal scores lands exactly at
/// index `j`.
proof fn lemma_insert_desc_at(s: Seq<PossibleAction>, x: PossibleAction, j: int)
    requires
        0 <= j <= s.len(),
        forall|k: int| 0 <= k < j ==> s[k].score >= x.score,
        j < s.len() ==> s[j].score < x.score,
    ensures
        insert_desc(s, x) == s.subrange(0, j) + seq![x] + s.subrange(j, s.len() as int),
    decreases j,
{
    if j == 0 {
        if s.len() == 0 {
            assert(insert_desc(s, x) =~= s.subrange(0, 0) + seq![x] + s.subrange(0, 0));
        } else {
            assert(insert_desc(s, x) =~= s.subrange(0, 0) + seq![x] + s.subrange(
                0,
                s.len() as int,
            ));
        }
    } else {
        assert(forall|k: int| 0 <= k < j - 1 ==> s.drop_first()[k].score >= x.score);
        lemma_insert_desc_at(s.drop_first(), x, j - 1);
        assert(seq![s[0]] + (s.drop_first().subrange(0, j - 1) + seq![x]
            + s.drop_first().subrange(j - 1, s.drop_first().len() as int)) =~= s.subrange(0, j)
            + seq![x] + s.subrange(j, s.len() as int));
    }
}

/// The selection step: stable-sort the scored candidates by score
/// descending and hand back the actions in that order — the actor's
/// full fallback candidate list, not just the best one.
pub fn npc_action(entity: EntityId, possible: Vec<PossibleAction>) -> (r: QueuedAction)
    ensures
        r.entity == entity,
        r.performable_actions@ == sort_desc(possible@).map_values(
            |pa: PossibleAction| pa.action,
        ),
{
    let n = possible.len();
    let mut sorted: Vec<PossibleAction> = Vec::new();
    let mut i: usize = 0;
    proof {
        assert(possible@.subrange(0, 0) =~= Seq::<PossibleAction>::empty());
        assert(sorted@ == sort_desc(possible@.subrange(0, 0)));
    }
    while i < n
        invariant
            i <= n,
            n == possible@.len(),
            sorted@ == sort_desc(possible@.subrange(0, i as int)),
            sorted@.len() == i,
        decreases n - i,
    {
        let x = possible[i];
        let m = sorted.len();
        let mut j: usize = 0;
        while j < m
            invariant
                j <= m,
                m == sorted@.len(),
                forall|k: int| 0 <= k < j ==> sorted@[k].score >= x.score,
            ensures
                j <= m,
                m == sorted@.len(),
                forall|k: int| 0 <= k < j ==> sorted@[k].score >= x.score,
                j < m ==> sorted@[j as int].score < x.score,
            decreases m - j,
        {
            if sorted[j].score < x.score {
                break ;
            }
            j += 1;
        }
        proof {
            lemma_insert_desc_at(sorted@, x, j as int);
        }
        sorted.insert(j, x);
        proof {
            assert(possible@.subrange(0, i + 1).drop_last() =~= possible@.subrange(0, i as int));
            assert(possible@.subrange(0, i + 1).last() == possible@[i as int]);
            assert(sorted@ =~= sort_desc(possible@.subrange(0, i as int)).subrange(0, j as int)
                + seq![x] + sort_desc(possible@.subrange(0, i as int)).subrange(
                j as int,
                sort_desc(possible@.subrange(0, i as int)).len() as int,
            ));
        }
        i += 1;
    }
    proof {
        assert(possible@.subrange(0, n as int) =~= possible@);
    }
    let mut actions: Vec<Action> = Vec::new();
    let mut k: usize = 0;
    while k < sorted.len()
        invariant
            k <= sorted@.len(),
            sorted@ == sort_desc(possible@),
            actions@.len() == k,
            forall|e: int| 0 <= e < k ==> actions@[e] == sorted@[e].action,
        decreases sorted@.len() - k,
    {
        actions.push(sorted[k].action);
        k += 1;
    }
    proof {
        assert(actions@ =~= sort_desc(possible@).map_values(|pa: PossibleAction| pa.action));
    }
    QueuedAction { entity, performable_actions: actions }
}

/// The sort is a permutation: every scored candidate appears in the
/// sorted list exactly as often as in the input — the selection keeps
/// the full candidate list, it only reorders it.
pub proof fn lemma_sort_desc_permutes(s: Seq<PossibleAction>)
    ensures
        sort_desc(s).to_multiset() == s.to_multiset(),
    decreases s.len(),
{
    broadcast use vstd::seq_lib::group_to_multiset_ensures;

    if s.len() > 0 {
        lemma_sort_desc_permutes(s.drop_last());
        lemma_insert_desc_multiset(sort_desc(s.drop_last()), s.last());
        assert(s.drop_last().push(s.last()) =~= s);
        assert(s.drop_last().push(s.last()).to_multiset() =~= s.drop_last().to_multiset().insert(
            s.last(),
        ));
    }
}

/// Insertion adds exactly the inserted element to the multiset.
proof fn lemma_insert_desc_multiset(s: Seq<PossibleAction>, x: PossibleAction)
    ensures
        insert_desc(s, x).to_multiset() == s.to_multiset().insert(x),
    decreases s.len(),
{
    broadcast use vstd::seq_lib::group_to_multiset_ensures;
    broadcast use vstd::seq_lib::lemma_multiset_commutative;

    if s.len() == 0 {
        assert(seq![x] =~= Seq::<PossibleAction>::empty().push(x));
        assert(Seq::<PossibleAction>::empty().push(x).to_multiset()
            =~= Seq::<PossibleAction>::empty().to_multiset().insert(x));
    } else if s[0].score < x.score {
        assert((seq![x] + s).to_multiset() =~= seq![x].to_multiset().add(s.to_multiset()));
        assert(seq![x] =~= Seq::<PossibleAction>::empty().push(x));
        assert(Seq::<PossibleAction>::empty().push(x).to_multiset()
            =~= Seq::<PossibleAction>::empty().to_multiset().insert(x));
        assert(seq![x].to_multiset().add(s.to_multiset()) =~= s.to_multiset().insert(x));
    } else {
        lemma_insert_desc_multiset(s.drop_first(), x);
        let t = insert_desc(s, x);
        assert(t == seq![s[0]] + insert_desc(s.drop_first(), x));
        assert((seq![s[0]] + insert_desc(s.drop_first(), x)).to_multiset()
            =~= seq![s[0]].to_multiset().add(insert_desc(s.drop_first(), x).to_multiset()));
        assert(seq![s[0]] =~= Seq::<PossibleAction>::empty().push(s[0]));
        assert(Seq::<PossibleAction>::empty().push(s[0]).to_multiset()
            =~= Seq::<PossibleAction>::empty().to_multiset().insert(s[0]));
        assert(seq![s[0]] + s.drop_first() =~= s);
        assert((seq![s[0]] + s.drop_first()).to_multiset() =~= seq![s[0]].to_multiset().add(
            s.drop_first().to_multiset(),
        ));
        assert(t.to_multiset() =~= s.to_multiset().insert(x));
    }
}

/// The sort really is by descending score.
pub proof fn lemma_sort_desc_sorted(s: Seq<PossibleAction>)
    ensures
        forall|i: int, j: int|
            0 <= i < j < sort_desc(s).len() ==> sort_desc(s)[i].score >= sort_desc(s)[j].score,
    decreases s.len(),
{
    if s.len() > 0 {
        lemma_sort_desc_sorted(s.drop_last());
        lemma_insert_desc_sorted(sort_desc(s.drop_last()), s.last());
    }
}

/// Insertion preserves descending order.
proof fn lemma_insert_desc_sorted(s: Seq<PossibleAction>, x: PossibleAction)
    requires
        forall|i: int, j: int| 0 <= i < j < s.len() ==> s[i].score >= s[j].score,
    ensures
        forall|i: int, j: int|
            0 <= i < j < insert_desc(s, x).len() ==> insert_desc(s, x)[i].score >= insert_desc(
                s,
                x,
            )[j].score,
    decreases s.len(),
{
    if s.len() > 0 && !(s[0].score < x.score) {
        assert(forall|i: int, j: int|
            0 <= i < j < s.drop_first().len() ==> s.drop_first()[i].score
                >= s.drop_first()[j].score);
        lemma_insert_desc_sorted(s.drop_first(), x);
        let t = insert_desc(s, x);
        let t1 = insert_desc(s.drop_first(), x);
        assert forall|i: int, j: int| 0 <= i < j < t.len() implies t[i].score >= t[j].score by {
            assert(t[0] == s[0]);
            if i > 0 {
                assert(t[i] == t1[i - 1] && t[j] == t1[j - 1]);
            } else {
                assert(t[j] == t1[j - 1]);
                lemma_insert_desc_first_bound(s.drop_first(), x, s[0].score as int);
            }
        }
    }
}

/// Every element of an insertion into a low-scoring sequence stays
/// bounded by a score that bounds both the sequence and the inserted
/// element.
proof fn lemma_insert_desc_first_bound(s: Seq<PossibleAction>, x: PossibleAction, bound: int)
    requires
        forall|i: int| 0 <= i < s.len() ==> s[i].score <= bound,
        x.score <= bound,
    ensures
        forall|i: int| 0 <= i < insert_desc(s, x).len() ==> insert_desc(s, x)[i].score <= bound,
    decreases s.len(),
{
    if s.len() > 0 && !(s[0].score < x.score) {
        assert(forall|i: int| 0 <= i < s.drop_first().len() ==> s.drop_first()[i].score <= bound);
        lemma_insert_desc_first_bound(s.drop_first(), x, bound);
        let t = insert_desc(s, x);
        let t1 = insert_desc(s.drop_first(), x);
        assert forall|i: int| 0 <= i < t.len() implies t[i].score <= bound by {
            if i > 0 {
                assert(t[i] == t1[i - 1]);
            }
        }
    }
}

} // verus!
