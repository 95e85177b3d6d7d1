//! Grid path search: shortest-step breadth-first search over a set of
//! walkable coordinates, avoiding blocked ones.
//!
//! `find_path` returns a shortest valid start-to-goal path exactly
//! when one exists; no path is a normal outcome, not an error.  The goal tile
//! itself may be blocked (an actor walks *toward* an occupied tile),
//! and the start tile is exempt from the walkable/blocked checks.

use vstd::prelude::*;
use vstd::seq_lib::*;
use vstd::set_lib::lemma_len_subset;
use crate::actions::in_i32;
use crate::grid::Coord;
use crate::grid::adjacent;
use crate::grid::ortho_directions;
use crate::grid::ortho_directions_spec;

verus! {

/// A valid path: starts at `start`, ends at `goal`, moves one
/// orthogonal step at a time; every coordinate after the start is
/// walkable, and no interior coordinate is blocked.
pub open spec fn path_ok(
    walkable: Seq<Coord>,
    blocked: Seq<Coord>,
    start: Coord,
    goal: Coord,
    p: Seq<Coord>,
) -> bool {
    &&& p.len() >= 1
    &&& p[0] == start
    &&& p[p.len() - 1] == goal
    &&& forall|i: int| 0 <= i < p.len() - 1 ==> adjacent(#[trigger] p[i], p[i + 1])
    &&& forall|i: int| 1 <= i < p.len() ==> walkable.contains(p[i])
    &&& forall|i: int| 1 <= i < p.len() - 1 ==> !blocked.contains(p[i])
}

/// Whether some valid path exists.
pub open spec fn reachable(
    walkable: Seq<Coord>,
    blocked: Seq<Coord>,
    start: Coord,
    goal: Coord,
) -> bool {
    exists|p: Seq<Coord>| path_ok(walkable, blocked, start, goal, p)
}

/// A step that the search may take from `a` to `c` without reaching
/// the goal.
pub open spec fn admissible_step(
    walkable: Seq<Coord>,
    blocked: Seq<Coord>,
    goal: Coord,
    a: Coord,
    c: Coord,
) -> bool {
    adjacent(a, c) && walkable.contains(c) && !blocked.contains(c) && c != goal
}

/// Whether stepping from `a` by the offset `d` stays in coordinate
/// range.
pub open spec fn step_ok(a: Coord, d: Coord) -> bool {
    in_i32(a.x + d.x) && in_i32(a.y + d.y)
}

pub open spec fn step_at(a: Coord, d: Coord) -> Coord {
    Coord { x: (a.x + d.x) as i32, y: (a.y + d.y) as i32 }
}

/// Every coordinate adjacent to `a` is one of the four direction
/// steps from `a` (and in particular representable).
proof fn lemma_adjacent_is_step(a: Coord, b: Coord)
    requires
        adjacent(a, b),
    ensures
        exists|d: int|
            0 <= d < 4 && step_ok(a, ortho_directions_spec()[d]) && b == step_at(
                a,
                ortho_directions_spec()[d],
            ),
{
    let dirs = ortho_directions_spec();
    if b.x == a.x + 1 && b.y == a.y {
        assert(step_ok(a, dirs[3]) && b == step_at(a, dirs[3]));
    } else if b.x == a.x - 1 && b.y == a.y {
        assert(step_ok(a, dirs[2]) && b == step_at(a, dirs[2]));
    } else if b.x == a.x && b.y == a.y + 1 {
        assert(step_ok(a, dirs[0]) && b == step_at(a, dirs[0]));
    } else {
        assert(step_ok(a, dirs[1]) && b == step_at(a, dirs[1]));
    }
}

/// Each direction step, when in range, is adjacent.
proof fn lemma_step_is_adjacent(a: Coord, d: int)
    requires
        0 <= d < 4,
        step_ok(a, ortho_directions_spec()[d]),
    ensures
        adjacent(a, step_at(a, ortho_directions_spec()[d])),
{
}

/// A duplicate-free sequence whose elements all occur in `t` is no
/// longer than `t`.
proof fn lemma_distinct_subset_len(s: Seq<Coord>, t: Seq<Coord>)
    requires
        s.no_duplicates(),
        forall|i: int| 0 <= i < s.len() ==> t.contains(s[i]),
    ensures
        s.len() <= t.len(),
{
    s.unique_seq_to_set();
    t.lemma_cardinality_of_set();
    assert(s.to_set().subset_of(t.to_set())) by {
        assert forall|c: Coord| s.to_set().contains(c) implies t.to_set().contains(c) by {
            assert(s.contains(c));
            let i = choose|i: int| 0 <= i < s.len() && s[i] == c;
            assert(t.contains(s[i]));
        }
    }
    lemma_len_subset(s.to_set(), t.to_set());
}

/// Every coordinate of a valid path short of the goal lies in a
/// search front that is closed under admissible steps and has never
/// seen the goal next to it.
proof fn lemma_path_stays_in_closed_front(
    walkable: Seq<Coord>,
    blocked: Seq<Coord>,
    start: Coord,
    goal: Coord,
    nodes: Seq<Coord>,
    p: Seq<Coord>,
    i: int,
)
    requires
        path_ok(walkable, blocked, start, goal, p),
        start != goal,
        nodes.len() >= 1,
        nodes[0] == start,
        forall|a: Coord, c: Coord|
            nodes.contains(a) && admissible_step(walkable, blocked, goal, a, c)
                ==> nodes.contains(c),
        forall|a: Coord|
            nodes.contains(a) ==> !(adjacent(a, goal) && walkable.contains(goal)),
        0 <= i < p.len() - 1,
    ensures
        nodes.contains(p[i]),
    decreases i,
{
    if i == 0 {
        assert(nodes[0] == p[0]);
    } else {
        lemma_path_stays_in_closed_front(walkable, blocked, start, goal, nodes, p, i - 1);
        if p[i] == goal {
            // a path through the goal would already have been found
            assert(adjacent(p[i - 1], goal));
            assert(walkable.contains(goal));
            assert(false);
        } else {
            assert(admissible_step(walkable, blocked, goal, p[i - 1], p[i]));
        }
    }
}

/// The inductive shape of a breadth-first front: nodes in discovery
/// order with their depths, depths nondecreasing, every processed
/// node's admissible neighbours discovered within one extra step, and
/// the goal never seen next to a processed node.
pub open spec fn bfs_front_ok(
    walkable: Seq<Coord>,
    blocked: Seq<Coord>,
    start: Coord,
    goal: Coord,
    nodes: Seq<Coord>,
    dist: Seq<nat>,
    head: int,
) -> bool {
    &&& 1 <= nodes.len()
    &&& dist.len() == nodes.len()
    &&& nodes[0] == start
    &&& dist[0] == 0
    &&& 0 <= head <= nodes.len()
    &&& (forall|a: int, b: int| 0 <= a <= b < nodes.len() ==> dist[a] <= dist[b])
    &&& (forall|j: int, c: Coord|
        0 <= j < head && #[trigger] admissible_step(walkable, blocked, goal, nodes[j], c)
            ==> exists|k: int| 0 <= k < nodes.len() && nodes[k] == c && dist[k] <= dist[j] + 1)
    &&& (forall|j: int|
        0 <= j < head ==> !(adjacent(#[trigger] nodes[j], goal) && walkable.contains(goal)))
}

/// Any valid path's coordinate within the frontier depth is already
/// discovered, at its true depth or shallower.
proof fn lemma_bfs_lower_bound(
    walkable: Seq<Coord>,
    blocked: Seq<Coord>,
    start: Coord,
    goal: Coord,
    nodes: Seq<Coord>,
    dist: Seq<nat>,
    head: int,
    p: Seq<Coord>,
    i: int,
)
    requires
        bfs_front_ok(walkable, blocked, start, goal, nodes, dist, head),
        head < nodes.len(),
        path_ok(walkable, blocked, start, goal, p),
        start != goal,
        0 <= i < p.len() - 1,
        i <= dist[head],
    ensures
        exists|k: int| 0 <= k < nodes.len() && nodes[k] == p[i] && dist[k] <= i,
    decreases i,
{
    if i == 0 {
        assert(0 <= 0 < nodes.len() && nodes[0] == p[0] && dist[0] <= 0);
    } else {
        lemma_bfs_lower_bound(walkable, blocked, start, goal, nodes, dist, head, p, i - 1);
        let k = choose|k: int| 0 <= k < nodes.len() && nodes[k] == p[i - 1] && dist[k] <= i - 1;
        assert(k < head) by {
            if head <= k {
                assert(dist[head] <= dist[k]);
            }
        }
        if p[i] == goal {
            assert(adjacent(nodes[k], goal));
            assert(walkable.contains(p[i]));
            assert(!(adjacent(nodes[k], goal) && walkable.contains(goal)));
            assert(false);
        } else {
            assert(admissible_step(walkable, blocked, goal, nodes[k], p[i]));
            let k2 = choose|k2: int|
                0 <= k2 < nodes.len() && nodes[k2] == p[i] && dist[k2] <= dist[k] + 1;
            assert(dist[k2] <= i);
        }
    }
}

/// While the frontier node `nodes[head]` is being expanded, every
/// valid start-to-goal path has more than `dist[head] + 1` vertices:
/// a goal reached from depth `dist[head]` is reached by a shortest
/// path.
proof fn lemma_bfs_shortest(
    walkable: Seq<Coord>,
    blocked: Seq<Coord>,
    start: Coord,
    goal: Coord,
    nodes: Seq<Coord>,
    dist: Seq<nat>,
    head: int,
    q: Seq<Coord>,
)
    requires
        bfs_front_ok(walkable, blocked, start, goal, nodes, dist, head),
        head < nodes.len(),
        start != goal,
        path_ok(walkable, blocked, start, goal, q),
    ensures
        q.len() >= dist[head] + 2,
{
    assert(q.len() >= 2) by {
        if q.len() == 1 {
            assert(q[0] == start && q[0] == goal);
        }
    }
    let i = q.len() - 2;
    if i <= dist[head] {
        lemma_bfs_lower_bound(walkable, blocked, start, goal, nodes, dist, head, q, i);
        let k = choose|k: int| 0 <= k < nodes.len() && nodes[k] == q[i] && dist[k] <= i;
        assert(adjacent(nodes[k], q[i + 1]));
        assert(walkable.contains(q[q.len() - 1]));
        assert(head <= k) by {
            if k < head {
                assert(!(adjacent(nodes[k], goal) && walkable.contains(goal)));
            }
        }
        assert(dist[head] <= dist[k]);
    }
}

/// When the search front is exhausted without touching the goal, no
/// valid path exists at all.
proof fn lemma_bfs_complete(
    walkable: Seq<Coord>,
    blocked: Seq<Coord>,
    start: Coord,
    goal: Coord,
    nodes: Seq<Coord>,
)
    requires
        start != goal,
        nodes.len() >= 1,
        nodes[0] == start,
        forall|a: Coord, c: Coord|
            nodes.contains(a) && admissible_step(walkable, blocked, goal, a, c)
                ==> nodes.contains(c),
        forall|a: Coord|
            nodes.contains(a) ==> !(adjacent(a, goal) && walkable.contains(goal)),
    ensures
        !reachable(walkable, blocked, start, goal),
{
    if reachable(walkable, blocked, start, goal) {
        let p = choose|p: Seq<Coord>| path_ok(walkable, blocked, start, goal, p);
        assert(p.len() >= 2) by {
            if p.len() == 1 {
                assert(p[0] == start && p[0] == goal);
            }
        }
        lemma_path_stays_in_closed_front(
            walkable,
            blocked,
            start,
            goal,
            nodes,
            p,
            p.len() - 2,
        );
        assert(adjacent(p[p.len() - 2], goal));
        assert(walkable.contains(p[p.len() - 1]));
        assert(false);
    }
}

/// What one direction does to the search state while expanding the
/// node `cur`: a fresh, walkable, unblocked, non-goal neighbour is
/// appended with `head` as its parent; anything else changes nothing.
pub open spec fn dir_update(
    walkable: Seq<Coord>,
    blocked: Seq<Coord>,
    goal: Coord,
    nodes: Seq<Coord>,
    parents: Seq<usize>,
    cur: Coord,
    head: usize,
    d: int,
) -> (Seq<Coord>, Seq<usize>) {
    if !step_ok(cur, ortho_directions_spec()[d]) {
        (nodes, parents)
    } else {
        let c = step_at(cur, ortho_directions_spec()[d]);
        if c != goal && walkable.contains(c) && !blocked.contains(c) && !nodes.contains(c) {
            (nodes.push(c), parents.push(head))
        } else {
            (nodes, parents)
        }
    }
}

/// The search state after expanding `cur`'s first `d` directions.
pub open spec fn expand_upto(
    walkable: Seq<Coord>,
    blocked: Seq<Coord>,
    goal: Coord,
    nodes: Seq<Coord>,
    parents: Seq<usize>,
    cur: Coord,
    head: usize,
    d: int,
) -> (Seq<Coord>, Seq<usize>)
    decreases d,
{
    if d <= 0 {
        (nodes, parents)
    } else {
        let prev = expand_upto(walkable, blocked, goal, nodes, parents, cur, head, d - 1);
        dir_update(walkable, blocked, goal, prev.0, prev.1, cur, head, d - 1)
    }
}

/// Expanding a node means processing all four directions.
pub open spec fn bfs_step(
    walkable: Seq<Coord>,
    blocked: Seq<Coord>,
    goal: Coord,
    nodes: Seq<Coord>,
    parents: Seq<usize>,
    head: usize,
) -> (Seq<Coord>, Seq<usize>) {
    expand_upto(walkable, blocked, goal, nodes, parents, nodes[head as int], head, 4)
}

/// The search, run to its end: expand nodes in discovery order until
/// the goal turns up next to the node being expanded (returning the
/// state and position at that moment) or the front is exhausted.
/// `fuel` bounds the recursion; the search itself discovers at most
/// one node per walkable coordinate, so the caller's fuel of
/// `walkable.len() + 1` is never the reason a search stops.
pub open spec fn bfs_run(
    walkable: Seq<Coord>,
    blocked: Seq<Coord>,
    start: Coord,
    goal: Coord,
    nodes: Seq<Coord>,
    parents: Seq<usize>,
    head: usize,
    fuel: nat,
) -> Option<(Seq<Coord>, Seq<usize>, usize)>
    decreases fuel,
{
    if fuel == 0 {
        None
    } else if head >= nodes.len() {
        None
    } else if adjacent(nodes[head as int], goal) && walkable.contains(goal) {
        Some((nodes, parents, head))
    } else {
        let st = bfs_step(walkable, blocked, goal, nodes, parents, head);
        bfs_run(walkable, blocked, start, goal, st.0, st.1, (head + 1) as usize, (fuel - 1) as nat)
    }
}

/// The discovery chain from the start node to node `j`, read off the
/// parent links.
pub open spec fn chain(nodes: Seq<Coord>, parents: Seq<usize>, j: int) -> Seq<Coord>
    decreases j,
{
    if j <= 0 {
        seq![nodes[0]]
    } else if 0 <= parents[j] < j {
        chain(nodes, parents, parents[j] as int) + seq![nodes[j]]
    } else {
        seq![nodes[0]]
    }
}

/// The chain to `j` reads only the first `j + 1` entries, so later
/// discoveries do not disturb it.
proof fn lemma_chain_prefix(
    nodes1: Seq<Coord>,
    parents1: Seq<usize>,
    nodes2: Seq<Coord>,
    parents2: Seq<usize>,
    j: int,
)
    requires
        0 <= j < nodes1.len(),
        j < parents1.len(),
        nodes1.len() <= nodes2.len(),
        parents1.len() <= parents2.len(),
        forall|i: int| 0 <= i < nodes1.len() ==> nodes1[i] == nodes2[i],
        forall|i: int| 0 <= i < parents1.len() ==> parents1[i] == parents2[i],
    ensures
        chain(nodes1, parents1, j) == chain(nodes2, parents2, j),
    decreases j,
{
    if j > 0 && 0 <= parents1[j] < j {
        lemma_chain_prefix(nodes1, parents1, nodes2, parents2, parents1[j] as int);
    }
}

/// A chain is never empty and ends at its node.
proof fn lemma_chain_last(nodes: Seq<Coord>, parents: Seq<usize>, j: int)
    requires
        0 <= j,
        j > 0 ==> 0 <= parents[j] < j,
    ensures
        chain(nodes, parents, j).len() >= 1,
        chain(nodes, parents, j).last() == nodes[j],
{
}

/// Expansion only appends: earlier discoveries keep their places.
proof fn lemma_expand_extends(
    walkable: Seq<Coord>,
    blocked: Seq<Coord>,
    goal: Coord,
    nodes: Seq<Coord>,
    parents: Seq<usize>,
    cur: Coord,
    head: usize,
    d: int,
)
    requires
        0 <= d,
    ensures
        ({
            let st = expand_upto(walkable, blocked, goal, nodes, parents, cur, head, d);
            &&& st.0.len() >= nodes.len()
            &&& st.1.len() >= parents.len()
            &&& (forall|i: int| 0 <= i < nodes.len() ==> st.0[i] == nodes[i])
            &&& (forall|i: int| 0 <= i < parents.len() ==> st.1[i] == parents[i])
        }),
    decreases d,
{
    if d > 0 {
        lemma_expand_extends(walkable, blocked, goal, nodes, parents, cur, head, d - 1);
    }
}

/// The whole search as a function of its four inputs: the path the
/// breadth-first search finds, or nothing when the goal is
/// unreachable.
pub open spec fn find_path_spec(
    walkable: Seq<Coord>,
    blocked: Seq<Coord>,
    start: Coord,
    goal: Coord,
) -> Option<Seq<Coord>> {
    if start == goal {
        Some(seq![start])
    } else {
        match bfs_run(
            walkable,
            blocked,
            start,
            goal,
            seq![start],
            seq![0usize],
            0,
            (walkable.len() + 1) as nat,
        ) {
            None => None,
            Some(st) => Some(chain(st.0, st.1, st.2 as int).push(goal)),
        }
    }
}

/// Pathfinding determinism: the search's result is a function of the
/// walkable set, the blocked set, the start and the goal alone, so
/// any two results meeting `find_path`'s contract on the same inputs
/// are identical — including the path itself.
pub proof fn lemma_find_path_deterministic(
    walkable: Seq<Coord>,
    blocked: Seq<Coord>,
    start: Coord,
    goal: Coord,
    r1: Option<Seq<Coord>>,
    r2: Option<Seq<Coord>>,
)
    requires
        r1 == find_path_spec(walkable, blocked, start, goal),
        r2 == find_path_spec(walkable, blocked, start, goal),
    ensures
        r1 == r2,
{
}

/// Whether `v` holds the coordinate `c`.
pub fn coords_contain(v: &Vec<Coord>, c: Coord) -> (r: bool)
    ensures
        r == v@.contains(c),
{
    let n = v.len();
    let mut i: usize = 0;
    while i < n
        invariant
            n == v@.len(),
            i <= n,
            forall|j: int| 0 <= j < i ==> v@[j] != c,
        decreases n - i,
    {
        let e = v[i];
        if e.x == c.x && e.y == c.y {
            proof {
                assert(v@[i as int] == c);
            }
            return true;
        }
        i += 1;
    }
    false
}

/// Rebuild the discovered chain from the expanded node back to the
/// start, append the goal, and hand back the found path.
#[verifier::loop_isolation(false)]
fn build_path(
    nodes: &Vec<Coord>,
    parents: &Vec<usize>,
    head: usize,
    goal: Coord,
    Ghost(walkable): Ghost<Seq<Coord>>,
    Ghost(blocked): Ghost<Seq<Coord>>,
    Ghost(start): Ghost<Coord>,
    Ghost(dist): Ghost<Seq<nat>>,
) -> (p: Vec<Coord>)
    requires
        head < nodes@.len(),
        parents@.len() == nodes@.len(),
        dist.len() == nodes@.len(),
        nodes@[0] == start,
        dist[0] == 0,
        forall|i: int|
            1 <= i < nodes@.len() ==> (parents@[i] < i && adjacent(
                nodes@[parents@[i] as int],
                nodes@[i],
            ) && walkable.contains(nodes@[i]) && !blocked.contains(nodes@[i]) && nodes@[i]
                != goal),
        forall|i: int| 1 <= i < nodes@.len() ==> dist[i] == dist[parents@[i] as int] + 1,
        adjacent(nodes@[head as int], goal),
        walkable.contains(goal),
    ensures
        path_ok(walkable, blocked, start, goal, p@),
        p@ == chain(nodes@, parents@, head as int).push(goal),
        p@.len() == dist[head as int] + 2,
{
    let cur = nodes[head];
    let mut rev: Vec<Coord> = Vec::new();
    let mut j: usize = head;
    rev.push(cur);
    proof {
        lemma_chain_last(nodes@, parents@, head as int);
        assert(rev@.reverse() =~= seq![cur]);
        assert(chain(nodes@, parents@, head as int) =~= chain(
            nodes@,
            parents@,
            head as int,
        ).drop_last() + rev@.reverse());
    }
    while j != 0
        invariant
            j < nodes@.len(),
            rev@.len() >= 1,
            rev@[0] == nodes@[head as int],
            rev@[rev@.len() - 1] == nodes@[j as int],
            rev@.len() + dist[j as int] == dist[head as int] + 1,
            chain(nodes@, parents@, head as int) == chain(
                nodes@,
                parents@,
                j as int,
            ).drop_last() + rev@.reverse(),
            forall|i: int|
                0 <= i < rev@.len() - 1 ==> adjacent(
                    rev@[i + 1],
                    #[trigger] rev@[i],
                ),
            forall|i: int|
                0 <= i < rev@.len() - 1 ==> (walkable.contains(rev@[i])
                    && !blocked.contains(rev@[i])),
        decreases j,
    {
        let pj = parents[j];
        proof {
            assert(parents@[j as int] < j);
        }
        let ghost rev0 = rev@;
        rev.push(nodes[pj]);
        proof {
            lemma_chain_last(nodes@, parents@, pj as int);
            assert(chain(nodes@, parents@, j as int).drop_last() =~= chain(
                nodes@,
                parents@,
                pj as int,
            ));
            assert(rev@.reverse() =~= seq![nodes@[pj as int]]
                + rev0.reverse());
            assert(chain(nodes@, parents@, pj as int).drop_last() + (seq![
                nodes@[pj as int],
            ] + rev0.reverse()) =~= chain(nodes@, parents@, pj as int)
                + rev0.reverse());
        }
        j = pj;
    }
    let mut path: Vec<Coord> = Vec::new();
    let mut k: usize = rev.len();
    while k > 0
        invariant
            k <= rev@.len(),
            path@.len() == rev@.len() - k,
            forall|i: int|
                0 <= i < path@.len() ==> path@[i] == rev@[rev@.len() - 1
                    - i],
        decreases k,
    {
        k -= 1;
        path.push(rev[k]);
    }
    path.push(goal);
    proof {
        assert(path@[0] == start);
        assert(path@[path@.len() - 1] == goal);
        assert forall|i: int| 0 <= i < path@.len() - 1 implies adjacent(
            #[trigger] path@[i],
            path@[i + 1],
        ) by {
            if i < path@.len() - 2 {
                assert(path@[i] == rev@[rev@.len() - 1 - i]);
                assert(path@[i + 1] == rev@[rev@.len() - 2 - i]);
            } else {
                assert(path@[i] == rev@[0]);
            }
        }
        assert forall|i: int| 1 <= i < path@.len() implies walkable.contains(
            path@[i],
        ) by {
            if i < path@.len() - 1 {
                assert(path@[i] == rev@[rev@.len() - 1 - i]);
            }
        }
        assert forall|i: int|
            1 <= i < path@.len() - 1 implies !blocked.contains(path@[i]) by {
            assert(path@[i] == rev@[rev@.len() - 1 - i]);
        }
        assert(path_ok(walkable, blocked, start, goal, path@));
        assert(path@.len() == dist[head as int] + 2);
        // the constructed path is the one the search
        // specification names
        assert(chain(nodes@, parents@, head as int) =~= rev@.reverse());
        assert(path@ =~= chain(nodes@, parents@, head as int).push(goal));
    }
    path
}

/// Breadth-first search from `start` to `goal` over `walkable`
/// coordinates, avoiding `blocked` ones.
///
/// Returns a path (start and goal inclusive) exactly when one
/// exists, and a shortest one by orthogonal step count: no valid
/// path has fewer coordinates.  An unreachable goal is a normal
/// `None` outcome.  The whole result equals `find_path_spec` — a
/// function of the walkable set, the blocked set, the start and the
/// goal alone — so repeated searches agree exactly.
#[verifier::loop_isolation(false)]
#[verifier::rlimit(100)]
pub fn find_path(
    start: Coord,
    goal: Coord,
    walkable: &Vec<Coord>,
    blocked: &Vec<Coord>,
) -> (r: Option<Vec<Coord>>)
    ensures
        match r {
            Some(p) => path_ok(walkable@, blocked@, start, goal, p@) && reachable(
                walkable@,
                blocked@,
                start,
                goal,
            ) && (forall|q: Seq<Coord>|
                #[trigger] path_ok(walkable@, blocked@, start, goal, q) ==> p@.len() <= q.len())
                && find_path_spec(walkable@, blocked@, start, goal) == Some(p@),
            None => !reachable(walkable@, blocked@, start, goal) && find_path_spec(
                walkable@,
                blocked@,
                start,
                goal,
            ) is None,
        },
{
    if start.x == goal.x && start.y == goal.y {
        let mut p: Vec<Coord> = Vec::new();
        p.push(start);
        proof {
            assert(path_ok(walkable@, blocked@, start, goal, p@));
            assert(p@ =~= seq![start]);
        }
        return Some(p);
    }
    let dirs = ortho_directions();
    let mut nodes: Vec<Coord> = Vec::new();
    let mut parents: Vec<usize> = Vec::new();
    nodes.push(start);
    parents.push(0);
    let ghost mut dist: Seq<nat> = seq![0nat];
    let mut head: usize = 0;
    proof {
        assert(nodes@ =~= seq![start]);
        assert(parents@ =~= seq![0usize]);
    }
    while head < nodes.len()
        invariant
            nodes@.len() == parents@.len(),
            head <= nodes@.len(),
            1 <= nodes@.len(),
            nodes@[0] == start,
            nodes@.no_duplicates(),
            nodes@.len() <= walkable@.len() + 1,
            forall|i: int|
                1 <= i < nodes@.len() ==> (parents@[i] < i && adjacent(
                    nodes@[parents@[i] as int],
                    nodes@[i],
                ) && walkable@.contains(nodes@[i]) && !blocked@.contains(nodes@[i])
                    && nodes@[i] != goal),
            forall|j: int, c: Coord|
                0 <= j < head && admissible_step(walkable@, blocked@, goal, nodes@[j], c)
                    ==> nodes@.contains(c),
            forall|j: int|
                0 <= j < head ==> !(adjacent(nodes@[j], goal) && walkable@.contains(goal)),
            bfs_front_ok(walkable@, blocked@, start, goal, nodes@, dist, head as int),
            forall|i: int| 1 <= i < nodes@.len() ==> dist[i] == dist[parents@[i] as int] + 1,
            head < nodes@.len() ==> dist[nodes@.len() - 1] <= dist[head as int] + 1,
            bfs_run(
                walkable@,
                blocked@,
                start,
                goal,
                nodes@,
                parents@,
                head,
                (walkable@.len() + 1 - head) as nat,
            ) == bfs_run(
                walkable@,
                blocked@,
                start,
                goal,
                seq![start],
                seq![0usize],
                0,
                (walkable@.len() + 1) as nat,
            ),
        decreases walkable@.len() + 1 - head,
    {
        let cur = nodes[head];
        let ghost nodes_in = nodes@;
        let ghost parents_in = parents@;
        let mut d: usize = 0;
        while d < 4
            invariant
                head < nodes@.len(),
                cur == nodes@[head as int],
                head < nodes_in.len(),
                parents_in.len() == nodes_in.len(),
                cur == nodes_in[head as int],
                nodes@ == expand_upto(
                    walkable@,
                    blocked@,
                    goal,
                    nodes_in,
                    parents_in,
                    cur,
                    head,
                    d as int,
                ).0,
                parents@ == expand_upto(
                    walkable@,
                    blocked@,
                    goal,
                    nodes_in,
                    parents_in,
                    cur,
                    head,
                    d as int,
                ).1,
                d <= 4,
                nodes@.len() == parents@.len(),
                1 <= nodes@.len(),
                nodes@[0] == start,
                nodes@.no_duplicates(),
                nodes@.len() <= walkable@.len() + 1,
                forall|i: int|
                    1 <= i < nodes@.len() ==> (parents@[i] < i && adjacent(
                        nodes@[parents@[i] as int],
                        nodes@[i],
                    ) && walkable@.contains(nodes@[i]) && !blocked@.contains(nodes@[i])
                        && nodes@[i] != goal),
                forall|j: int, c: Coord|
                    0 <= j < head && admissible_step(walkable@, blocked@, goal, nodes@[j], c)
                        ==> nodes@.contains(c),
                forall|j: int|
                    0 <= j < head ==> !(adjacent(nodes@[j], goal) && walkable@.contains(goal)),
                bfs_front_ok(walkable@, blocked@, start, goal, nodes@, dist, head as int),
                forall|i: int| 1 <= i < nodes@.len() ==> dist[i] == dist[parents@[i] as int] + 1,
                dist[nodes@.len() - 1] <= dist[head as int] + 1,
                forall|e: int|
                    0 <= e < d ==> (step_ok(cur, ortho_directions_spec()[e]) ==> ({
                        let c = step_at(cur, ortho_directions_spec()[e]);
                        &&& !(c == goal && walkable@.contains(goal))
                        &&& (admissible_step(walkable@, blocked@, goal, cur, c)
                            ==> nodes@.contains(c))
                        &&& (admissible_step(walkable@, blocked@, goal, cur, c)
                            ==> exists|k: int|
                            0 <= k < nodes@.len() && nodes@[k] == c && dist[k] <= dist[
                                head as int
                            ] + 1)
                    })),
            decreases 4 - d,
        {
            let dir = dirs[d];
            let nb_opt = if dir.x == 1 && cur.x == i32::MAX {
                None
            } else if dir.x == -1 && cur.x == i32::MIN {
                None
            } else if dir.y == 1 && cur.y == i32::MAX {
                None
            } else if dir.y == -1 && cur.y == i32::MIN {
                None
            } else {
                Some(Coord { x: cur.x + dir.x, y: cur.y + dir.y })
            };
            match nb_opt {
                None => {
                    proof {
                        assert(!step_ok(cur, ortho_directions_spec()[d as int]));
                        assert(expand_upto(
                            walkable@,
                            blocked@,
                            goal,
                            nodes_in,
                            parents_in,
                            cur,
                            head,
                            d + 1,
                        ) == expand_upto(
                            walkable@,
                            blocked@,
                            goal,
                            nodes_in,
                            parents_in,
                            cur,
                            head,
                            d as int,
                        ));
                    }
                },
                Some(nb) => {
                    proof {
                        assert(step_ok(cur, ortho_directions_spec()[d as int]));
                        assert(nb == step_at(cur, ortho_directions_spec()[d as int]));
                        lemma_step_is_adjacent(cur, d as int);
                    }
                    let goal_hit = nb.x == goal.x && nb.y == goal.y;
                    let goal_found = goal_hit && coords_contain(walkable, goal);
                    if goal_found {
                        proof {
                            assert(nb == goal);
                        }
                        let path = build_path(
                            &nodes,
                            &parents,
                            head,
                            goal,
                            Ghost(walkable@),
                            Ghost(blocked@),
                            Ghost(start),
                            Ghost(dist),
                        );
                        proof {
                            assert forall|q: Seq<Coord>| #[trigger] path_ok(
                                walkable@,
                                blocked@,
                                start,
                                goal,
                                q,
                            ) implies path@.len() <= q.len() by {
                                lemma_bfs_shortest(
                                    walkable@,
                                    blocked@,
                                    start,
                                    goal,
                                    nodes@,
                                    dist,
                                    head as int,
                                    q,
                                );
                            }
                            lemma_expand_extends(
                                walkable@,
                                blocked@,
                                goal,
                                nodes_in,
                                parents_in,
                                cur,
                                head,
                                d as int,
                            );
                            lemma_chain_prefix(
                                nodes_in,
                                parents_in,
                                nodes@,
                                parents@,
                                head as int,
                            );
                            assert(bfs_run(
                                walkable@,
                                blocked@,
                                start,
                                goal,
                                nodes_in,
                                parents_in,
                                head,
                                (walkable@.len() + 1 - head) as nat,
                            ) == Some((nodes_in, parents_in, head)));
                            assert(find_path_spec(walkable@, blocked@, start, goal) == Some(
                                path@,
                            ));
                        }
                        return Some(path);
                    }
                    let in_walk = coords_contain(walkable, nb);
                    let in_block = coords_contain(blocked, nb);
                    let known = coords_contain(&nodes, nb);
                    if !goal_hit && in_walk && !in_block && !known {
                        let ghost nodes0 = nodes@;
                        let ghost parents0 = parents@;
                        let ghost dist0 = dist;
                        nodes.push(nb);
                        parents.push(head);
                        proof {
                            dist = dist.push((dist0[head as int] + 1) as nat);
                            assert(nodes@ == nodes0.push(nb));
                            assert(parents@ == parents0.push(head));
                            assert(dist == dist0.push((dist0[head as int] + 1) as nat));
                            assert(nodes@.contains(nb)) by {
                                assert(nodes@[nodes@.len() - 1] == nb);
                            }
                            assert forall|c: Coord| nodes0.contains(c) implies nodes@.contains(
                                c,
                            ) by {
                                let ix = choose|ix: int|
                                    0 <= ix < nodes0.len() && nodes0[ix] == c;
                                assert(nodes@[ix] == c);
                            }
                            assert(nodes@.no_duplicates()) by {
                                assert forall|i: int, j: int|
                                    0 <= i < j < nodes@.len() implies nodes@[i] != nodes@[j] by {
                                    if j == nodes@.len() - 1 {
                                        if nodes@[i] == nb {
                                            assert(nodes0[i] == nb);
                                            assert(nodes0.contains(nb));
                                        }
                                    }
                                }
                            }
                            assert forall|i: int|
                                1 <= i < nodes@.len() implies (parents@[i] < i && adjacent(
                                nodes@[parents@[i] as int],
                                nodes@[i],
                            ) && walkable@.contains(nodes@[i]) && !blocked@.contains(nodes@[i])
                                && nodes@[i] != goal) by {
                                if i < nodes@.len() - 1 {
                                    assert(nodes@[i] == nodes0[i]);
                                    assert(parents@[i] == parents0[i]);
                                    assert(parents0[i] < i && adjacent(
                                        nodes0[parents0[i] as int],
                                        nodes0[i],
                                    ) && walkable@.contains(nodes0[i]) && !blocked@.contains(
                                        nodes0[i],
                                    ) && nodes0[i] != goal);
                                    assert(nodes@[parents0[i] as int] == nodes0[parents0[
                                        i
                                    ] as int]);
                                } else {
                                    assert(parents@[i] == head);
                                    assert(nodes@[head as int] == nodes0[head as int]);
                                    assert(adjacent(nodes@[head as int], nb));
                                }
                            }
                            assert forall|i: int|
                                0 <= i < nodes@.drop_first().len() implies walkable@.contains(
                                nodes@.drop_first()[i],
                            ) by {
                                assert(nodes@.drop_first()[i] == nodes@[i + 1]);
                                assert(parents@[i + 1] < i + 1);
                                assert(walkable@.contains(nodes@[i + 1]));
                            }
                            assert(nodes@.drop_first().no_duplicates()) by {
                                assert forall|i: int, j: int|
                                    0 <= i < j < nodes@.drop_first().len()
                                        implies nodes@.drop_first()[i] != nodes@.drop_first()[
                                    j
                                ] by {
                                    assert(nodes@.drop_first()[i] == nodes@[i + 1]);
                                    assert(nodes@.drop_first()[j] == nodes@[j + 1]);
                                }
                            }
                            lemma_distinct_subset_len(nodes@.drop_first(), walkable@);
                            // depth bookkeeping for the new node
                            assert forall|a: int, b: int|
                                0 <= a <= b < nodes@.len() implies dist[a] <= dist[b] by {
                                if b == nodes@.len() - 1 {
                                    if a < nodes@.len() - 1 {
                                        assert(dist0[a] <= dist0[nodes0.len() - 1]);
                                    }
                                } else {
                                    assert(dist0[a] <= dist0[b]);
                                }
                            }
                            assert forall|j: int, c: Coord|
                                0 <= j < head && #[trigger] admissible_step(
                                    walkable@,
                                    blocked@,
                                    goal,
                                    nodes@[j],
                                    c,
                                ) implies exists|k: int|
                                0 <= k < nodes@.len() && nodes@[k] == c && dist[k] <= dist[j]
                                    + 1 by {
                                assert(nodes@[j] == nodes0[j]);
                                assert(admissible_step(walkable@, blocked@, goal, nodes0[j], c));
                                let k = choose|k: int|
                                    0 <= k < nodes0.len() && nodes0[k] == c && dist0[k] <= dist0[
                                        j
                                    ] + 1;
                                assert(nodes@[k] == c && dist[k] <= dist[j] + 1);
                            }
                            assert forall|e: int|
                                0 <= e < d && step_ok(cur, ortho_directions_spec()[e])
                                    && admissible_step(
                                    walkable@,
                                    blocked@,
                                    goal,
                                    cur,
                                    step_at(cur, ortho_directions_spec()[e]),
                                ) implies exists|k: int|
                                0 <= k < nodes@.len() && nodes@[k] == step_at(
                                    cur,
                                    ortho_directions_spec()[e],
                                ) && dist[k] <= dist[head as int] + 1 by {
                                let c = step_at(cur, ortho_directions_spec()[e]);
                                let k = choose|k: int|
                                    0 <= k < nodes0.len() && nodes0[k] == c && dist0[k] <= dist0[
                                        head as int
                                    ] + 1;
                                assert(nodes@[k] == c && dist[k] <= dist[head as int] + 1);
                            }
                        }
                    }
                    proof {
                        assert(forall|i: int|
                            1 <= i < nodes@.len() ==> (parents@[i] < i && adjacent(
                                nodes@[parents@[i] as int],
                                nodes@[i],
                            ) && walkable@.contains(nodes@[i]) && !blocked@.contains(nodes@[i])
                                && nodes@[i] != goal));
                        // one more direction processed in the search's
                        // own terms
                        let prev = expand_upto(
                            walkable@,
                            blocked@,
                            goal,
                            nodes_in,
                            parents_in,
                            cur,
                            head,
                            d as int,
                        );
                        assert(expand_upto(
                            walkable@,
                            blocked@,
                            goal,
                            nodes_in,
                            parents_in,
                            cur,
                            head,
                            d + 1,
                        ) == dir_update(
                            walkable@,
                            blocked@,
                            goal,
                            prev.0,
                            prev.1,
                            cur,
                            head,
                            d as int,
                        ));
                        assert(nodes@ == expand_upto(
                            walkable@,
                            blocked@,
                            goal,
                            nodes_in,
                            parents_in,
                            cur,
                            head,
                            d + 1,
                        ).0 && parents@ == expand_upto(
                            walkable@,
                            blocked@,
                            goal,
                            nodes_in,
                            parents_in,
                            cur,
                            head,
                            d + 1,
                        ).1);
                        // this direction's neighbour, when admissible, is
                        // now recorded within one step of the frontier
                        if !goal_hit && in_walk && !in_block {
                            let c = step_at(cur, ortho_directions_spec()[d as int]);
                            assert(c == nb);
                            if known {
                                let ix = choose|ix: int|
                                    0 <= ix < nodes@.len() && nodes@[ix] == nb;
                                assert(dist[ix] <= dist[nodes@.len() - 1]);
                                assert(dist[ix] <= dist[head as int] + 1);
                            } else {
                                assert(nodes@[nodes@.len() - 1] == nb);
                                assert(dist[nodes@.len() - 1] == dist[head as int] + 1);
                            }
                        }
                    }
                },
            }
            d += 1;
        }
        proof {
            // All four directions handled: the expanded node's
            // admissible neighbours are all recorded, and none of
            // them was the (walkable) goal.
            assert forall|c: Coord|
                admissible_step(walkable@, blocked@, goal, nodes@[head as int], c)
                    implies nodes@.contains(c) by {
                lemma_adjacent_is_step(nodes@[head as int], c);
            }
            assert forall|j: int, c: Coord|
                0 <= j < head + 1 && #[trigger] admissible_step(
                    walkable@,
                    blocked@,
                    goal,
                    nodes@[j],
                    c,
                ) implies exists|k: int|
                0 <= k < nodes@.len() && nodes@[k] == c && dist[k] <= dist[j] + 1 by {
                if j == head {
                    lemma_adjacent_is_step(nodes@[head as int], c);
                    let e = choose|e: int|
                        0 <= e < 4 && step_ok(nodes@[head as int], ortho_directions_spec()[e])
                            && c == step_at(nodes@[head as int], ortho_directions_spec()[e]);
                    assert(step_ok(cur, ortho_directions_spec()[e]));
                }
            }
            assert(head + 1 < nodes@.len() ==> dist[nodes@.len() - 1] <= dist[head + 1] + 1) by {
                if head + 1 < nodes@.len() {
                    assert(dist[head as int] <= dist[head + 1]);
                }
            }
            assert forall|j: int|
                0 <= j < head + 1 implies !(adjacent(nodes@[j], goal) && walkable@.contains(
                goal,
            )) by {
                if j == head {
                    if adjacent(nodes@[j], goal) && walkable@.contains(goal) {
                        lemma_adjacent_is_step(nodes@[head as int], goal);
                    }
                }
            }
            // one expansion is one unfolding of the search
            assert(nodes@ == bfs_step(walkable@, blocked@, goal, nodes_in, parents_in, head).0
                && parents@ == bfs_step(walkable@, blocked@, goal, nodes_in, parents_in, head).1);
            assert(!(adjacent(nodes_in[head as int], goal) && walkable@.contains(goal)));
            assert(bfs_run(
                walkable@,
                blocked@,
                start,
                goal,
                nodes_in,
                parents_in,
                head,
                (walkable@.len() + 1 - head) as nat,
            ) == bfs_run(
                walkable@,
                blocked@,
                start,
                goal,
                nodes@,
                parents@,
                (head + 1) as usize,
                (walkable@.len() + 1 - (head + 1)) as nat,
            ));
        }
        head += 1;
    }
    proof {
        assert forall|a: Coord, c: Coord|
            nodes@.contains(a) && admissible_step(walkable@, blocked@, goal, a, c)
                implies nodes@.contains(c) by {
            let j = choose|j: int| 0 <= j < nodes@.len() && nodes@[j] == a;
            assert(admissible_step(walkable@, blocked@, goal, nodes@[j], c));
        }
        assert forall|a: Coord|
            nodes@.contains(a) implies !(adjacent(a, goal) && walkable@.contains(goal)) by {
            let j = choose|j: int| 0 <= j < nodes@.len() && nodes@[j] == a;
        }
        lemma_bfs_complete(walkable@, blocked@, start, goal, nodes@);
        assert(bfs_run(
            walkable@,
            blocked@,
            start,
            goal,
            nodes@,
            parents@,
            head,
            (walkable@.len() + 1 - head) as nat,
        ) is None);
        assert(find_path_spec(walkable@, blocked@, start, goal) is None);
    }
    None
}

} // verus!
