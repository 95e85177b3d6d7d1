//! The action queue and the turn resolution loop.
//!
//! One `process_action_queue` call is one scheduler tick: drain
//! animation-completion signals, stop if animations are still playing,
//! otherwise pop queue entries in order — skipping dead actors, trying
//! each entry's candidate actions first-to-last, front-inserting
//! follow-ups, and stopping at the first non-parallel success — then
//! report whether the turn's queue fully drained.
//!
//! The whole tick is pinned to the recursive specification `run_pass`,
//! so every ordering rule (priority insertion, dead-entity skip,
//! fallback order, parallel fan-out, blocking stop) is a proved
//! property of one function.

use std::collections::VecDeque;

use vstd::prelude::*;
use crate::actions::Action;
use crate::actions::execute_spec;
use crate::grid::EntityId;
use crate::world::GameWorld;
use crate::world::Piece;
use crate::world::WorldV;

verus! {

/// An acting entity with its ordered fallback candidates: try
/// `performable_actions[0]`; if it fails, try the next, and so on.
#[derive(Debug, Clone, PartialEq)]
pub struct QueuedAction {
    pub entity: EntityId,
    pub performable_actions: Vec<Action>,
}

/// Mathematical model of a queue entry.
#[verifier::ext_equal]
pub ghost struct QueuedActionV {
    pub entity: EntityId,
    pub candidates: Seq<Action>,
}

impl View for QueuedAction {
    type V = QueuedActionV;

    open spec fn view(&self) -> QueuedActionV {
        QueuedActionV { entity: self.entity, candidates: self.performable_actions@ }
    }
}

/// The pending-work list of a turn: FIFO, except that follow-up
/// actions of a successful execution go to the front.
#[derive(Debug, Clone)]
pub struct ActionQueue(pub VecDeque<QueuedAction>);

impl View for ActionQueue {
    type V = Seq<QueuedActionV>;

    open spec fn view(&self) -> Seq<QueuedActionV> {
        self.0@.map_values(|qa: QueuedAction| qa@)
    }
}

impl ActionQueue {
    /// An empty queue: the state of a turn with nothing pending.
    pub fn new() -> (r: ActionQueue)
        ensures
            r@ == Seq::<QueuedActionV>::empty(),
    {
        let q = ActionQueue(VecDeque::new());
        proof {
            assert(q@ =~= Seq::<QueuedActionV>::empty());
        }
        q
    }

    /// Enqueue pending work at the back: the push point for planners
    /// and input handlers.
    pub fn push(&mut self, qa: QueuedAction)
        ensures
            final(self)@ == old(self)@.push(qa@),
    {
        self.0.push_back(qa);
        proof {
            assert(final(self)@ =~= old(self)@.push(qa@));
        }
    }
}

/// What a tick reports to observers.
#[derive(Debug, Clone, Copy, PartialEq, Eq, Structural)]
pub enum OutEvent {
    /// A queue entry is about to be handled (sent even for entries
    /// that are then discarded because the actor is dead).
    ProcessingAction { entity: EntityId },
    /// All animations have completed and the queue is empty: the turn
    /// is fully resolved.
    QueueProcessed,
    /// All animations have completed but entries remain: the turn is
    /// still pending (diagnostic).
    QueuePending,
}

/// Termination measure of one action: an upper bound on the work its
/// follow-up chain can still create.
pub open spec fn action_weight(a: Action) -> nat {
    match a {
        Action::Walk(_) => 1,
        Action::Skip(_) => 1,
        Action::Damage(_) => 1,
        Action::SpellProjectile(_) => 2,
        Action::Spell(_) => 3,
    }
}

pub open spec fn actions_weight(s: Seq<Action>) -> nat
    decreases s.len(),
{
    if s.len() == 0 {
        0
    } else {
        action_weight(s[0]) + actions_weight(s.drop_first())
    }
}

pub open spec fn entry_weight(q: QueuedActionV) -> nat {
    1 + actions_weight(q.candidates)
}

pub open spec fn queue_weight(q: Seq<QueuedActionV>) -> nat
    decreases q.len(),
{
    if q.len() == 0 {
        0
    } else {
        entry_weight(q[0]) + queue_weight(q.drop_first())
    }
}

/// Trying candidates first-to-last: the first whose execution
/// succeeds, together with the world it produces and its follow-ups.
/// A failed execution leaves the world unchanged, so later candidates
/// run against the same world.
pub open spec fn first_success(w: WorldV, cands: Seq<Action>) -> Option<
    (WorldV, Action, Seq<Action>),
>
    decreases cands.len(),
{
    if cands.len() == 0 {
        None
    } else {
        match execute_spec(w, cands[0]) {
            Some(r) => Some((r.0, cands[0], r.1)),
            None => first_success(w, cands.drop_first()),
        }
    }
}

/// Record an action as the entity's currently running one (for the
/// animation layer to pick up).  An entity whose piece is gone — for
/// example despawned by its own action — is left alone.
pub open spec fn set_running(w: WorldV, id: EntityId, a: Action) -> WorldV {
    if w.has_piece(id) {
        w.update_piece(id, Piece { running_action: Some(a), ..w.piece(id) })
    } else {
        w
    }
}

/// The state one resolution pass threads along: the world, the queue,
/// the actions started so far (each increments the in-flight counter),
/// and the events emitted so far.
#[verifier::ext_equal]
pub ghost struct PassState {
    pub world: WorldV,
    pub queue: Seq<QueuedActionV>,
    pub started: Seq<(EntityId, Action)>,
    pub events: Seq<OutEvent>,
}

/// One resolution pass (step 3 of a tick): pop entries until the
/// queue is empty or a non-parallel action is dispatched.
///
/// Per entry: emit a processing event; drop the entry if its actor is
/// dead; otherwise run the first succeeding candidate, record it as
/// running, front-insert its follow-ups as one new entry, and either
/// continue (parallel) or stop the whole pass (non-parallel).
pub open spec fn run_pass(s: PassState) -> PassState
    decreases queue_weight(s.queue),
    via run_pass_decreases
{
    if s.queue.len() == 0 {
        s
    } else {
        let entry = s.queue[0];
        let s1 = PassState {
            queue: s.queue.drop_first(),
            events: s.events.push(OutEvent::ProcessingAction { entity: entry.entity }),
            ..s
        };
        if s1.world.dead(entry.entity) {
            run_pass(s1)
        } else {
            match first_success(s1.world, entry.candidates) {
                None => run_pass(s1),
                Some(r) => {
                    let s2 = PassState {
                        world: set_running(r.0, entry.entity, r.1),
                        queue: if r.2.len() > 0 {
                            s1.queue.insert(
                                0,
                                QueuedActionV { entity: entry.entity, candidates: r.2 },
                            )
                        } else {
                            s1.queue
                        },
                        started: s1.started.push((entry.entity, r.1)),
                        ..s1
                    };
                    if r.1.is_parallel_spec() {
                        run_pass(s2)
                    } else {
                        s2
                    }
                },
            }
        }
    }
}

#[via_fn]
proof fn run_pass_decreases(s: PassState) {
    if s.queue.len() > 0 {
        let entry = s.queue[0];
        lemma_queue_weight_drop_first(s.queue);
        match first_success(s.world, entry.candidates) {
            Some(r) => {
                lemma_first_success_weight(s.world, entry.candidates);
                if r.2.len() > 0 {
                    lemma_queue_weight_insert_front(
                        s.queue.drop_first(),
                        QueuedActionV { entity: entry.entity, candidates: r.2 },
                    );
                }
            },
            None => {},
        }
    }
}

/// FIFO with priority insertion: when the front entry's actor is
/// alive and one of its candidates executes yielding follow-ups, the
/// queue immediately afterwards holds the follow-ups as one new front
/// entry — in their returned order — ahead of every previously queued
/// entry.
pub proof fn lemma_fifo_priority_insertion(s: PassState)
    requires
        s.queue.len() >= 1,
        !s.world.dead(s.queue[0].entity),
        first_success(s.world, s.queue[0].candidates) is Some,
        first_success(s.world, s.queue[0].candidates)->Some_0.2.len() > 0,
    ensures
        ({
            let entry = s.queue[0];
            let r = first_success(s.world, entry.candidates)->Some_0;
            let after = PassState {
                world: set_running(r.0, entry.entity, r.1),
                queue: s.queue.drop_first().insert(
                    0,
                    QueuedActionV { entity: entry.entity, candidates: r.2 },
                ),
                started: s.started.push((entry.entity, r.1)),
                events: s.events.push(OutEvent::ProcessingAction { entity: entry.entity }),
            };
            &&& after.queue == seq![QueuedActionV { entity: entry.entity, candidates: r.2 }]
                + s.queue.drop_first()
            &&& run_pass(s) == if r.1.is_parallel_spec() {
                run_pass(after)
            } else {
                after
            }
        }),
{
    let entry = s.queue[0];
    let r = first_success(s.world, entry.candidates)->Some_0;
    assert(s.queue.drop_first().insert(
        0,
        QueuedActionV { entity: entry.entity, candidates: r.2 },
    ) =~= seq![QueuedActionV { entity: entry.entity, candidates: r.2 }]
        + s.queue.drop_first());
}

/// Dead-entity skip: an entry whose actor has zero health is removed
/// whole — none of its candidates is executed, the world is untouched
/// and nothing is started; only the processing notification is sent.
pub proof fn lemma_dead_entity_skip(s: PassState)
    requires
        s.queue.len() >= 1,
        s.world.dead(s.queue[0].entity),
    ensures
        run_pass(s) == run_pass(
            PassState {
                queue: s.queue.drop_first(),
                events: s.events.push(
                    OutEvent::ProcessingAction { entity: s.queue[0].entity },
                ),
                ..s
            },
        ),
{
}

/// Fallback order: when every candidate before index `k` fails and
/// `cands[k]` succeeds, it is exactly `cands[k]` that executes — and
/// it executes against the original world: the failed candidates left
/// no observable mutation behind.
pub proof fn lemma_fallback_order(w: WorldV, cands: Seq<Action>, k: int)
    requires
        0 <= k < cands.len(),
        forall|j: int| 0 <= j < k ==> execute_spec(w, cands[j]) is None,
        execute_spec(w, cands[k]) is Some,
    ensures
        first_success(w, cands) == Some(
            (
                execute_spec(w, cands[k])->Some_0.0,
                cands[k],
                execute_spec(w, cands[k])->Some_0.1,
            ),
        ),
    decreases k,
{
    if k > 0 {
        assert(cands.drop_first()[k - 1] == cands[k]);
        assert(forall|j: int| 0 <= j < k - 1 ==> cands.drop_first()[j] == cands[j + 1]);
        lemma_fallback_order(w, cands.drop_first(), k - 1);
    }
}

/// Parallel fan-out: two entries whose actions are parallel (and
/// yield no follow-ups) both start within the same pass, in queue
/// order, neither waiting on the other.
pub proof fn lemma_parallel_fan_out(s: PassState)
    requires
        s.queue.len() == 2,
        !s.world.dead(s.queue[0].entity),
        first_success(s.world, s.queue[0].candidates) is Some,
        ({
            let r0 = first_success(s.world, s.queue[0].candidates)->Some_0;
            let w1 = set_running(r0.0, s.queue[0].entity, r0.1);
            &&& r0.1.is_parallel_spec()
            &&& r0.2.len() == 0
            &&& !w1.dead(s.queue[1].entity)
            &&& first_success(w1, s.queue[1].candidates) is Some
            &&& first_success(w1, s.queue[1].candidates)->Some_0.1.is_parallel_spec()
            &&& first_success(w1, s.queue[1].candidates)->Some_0.2.len() == 0
        }),
    ensures
        ({
            let r0 = first_success(s.world, s.queue[0].candidates)->Some_0;
            let w1 = set_running(r0.0, s.queue[0].entity, r0.1);
            let r1 = first_success(w1, s.queue[1].candidates)->Some_0;
            &&& run_pass(s).started == s.started.push((s.queue[0].entity, r0.1)).push(
                (s.queue[1].entity, r1.1),
            )
            &&& run_pass(s).queue.len() == 0
            &&& run_pass(s).world == set_running(r1.0, s.queue[1].entity, r1.1)
        }),
{
    let entry0 = s.queue[0];
    let entry1 = s.queue[1];
    let r0 = first_success(s.world, entry0.candidates)->Some_0;
    let w1 = set_running(r0.0, entry0.entity, r0.1);
    let s2 = PassState {
        world: w1,
        queue: s.queue.drop_first(),
        started: s.started.push((entry0.entity, r0.1)),
        events: s.events.push(OutEvent::ProcessingAction { entity: entry0.entity }),
    };
    assert(run_pass(s) == run_pass(s2));
    assert(s2.queue[0] == entry1);
    let r1 = first_success(w1, entry1.candidates)->Some_0;
    let s3 = PassState {
        world: set_running(r1.0, entry1.entity, r1.1),
        queue: s2.queue.drop_first(),
        started: s2.started.push((entry1.entity, r1.1)),
        events: s2.events.push(OutEvent::ProcessingAction { entity: entry1.entity }),
    };
    assert(run_pass(s2) == run_pass(s3));
    assert(s3.queue.len() == 0);
    assert(run_pass(s3) == s3);
}

/// Blocking stop: a non-parallel action's success halts the pass at
/// once — exactly one action starts, and every remaining entry is
/// still in the queue, untouched, when the pass returns.
pub proof fn lemma_blocking_stop(s: PassState)
    requires
        s.queue.len() >= 1,
        !s.world.dead(s.queue[0].entity),
        first_success(s.world, s.queue[0].candidates) is Some,
        !first_success(s.world, s.queue[0].candidates)->Some_0.1.is_parallel_spec(),
    ensures
        ({
            let entry = s.queue[0];
            let r = first_success(s.world, entry.candidates)->Some_0;
            &&& run_pass(s).started == s.started.push((entry.entity, r.1))
            &&& run_pass(s).world == set_running(r.0, entry.entity, r.1)
            &&& run_pass(s).queue == if r.2.len() > 0 {
                s.queue.drop_first().insert(
                    0,
                    QueuedActionV { entity: entry.entity, candidates: r.2 },
                )
            } else {
                s.queue.drop_first()
            }
        }),
{
}

/// Popping the front entry removes its weight from the queue's.
pub proof fn lemma_queue_weight_drop_first(q: Seq<QueuedActionV>)
    requires
        q.len() > 0,
    ensures
        queue_weight(q) == entry_weight(q[0]) + queue_weight(q.drop_first()),
{
}

/// Front-inserting an entry adds its weight to the queue's.
pub proof fn lemma_queue_weight_insert_front(q: Seq<QueuedActionV>, e: QueuedActionV)
    ensures
        queue_weight(q.insert(0, e)) == entry_weight(e) + queue_weight(q),
{
    let q2 = q.insert(0, e);
    assert(q2[0] == e);
    assert(q2.drop_first() =~= q);
}

/// An element's weight is bounded by its sequence's.
proof fn lemma_actions_weight_elem(s: Seq<Action>, i: int)
    requires
        0 <= i < s.len(),
    ensures
        action_weight(s[i]) <= actions_weight(s),
    decreases s.len(),
{
    if i > 0 {
        lemma_actions_weight_elem(s.drop_first(), i - 1);
    }
}

/// A successful execution's follow-ups weigh strictly less than the
/// executed action.
pub proof fn lemma_follow_weight(w: WorldV, a: Action)
    requires
        execute_spec(w, a) is Some,
    ensures
        ({
            let r = execute_spec(w, a)->Some_0;
            actions_weight(r.1) + 1 <= action_weight(a)
        }),
{
    let r = execute_spec(w, a)->Some_0;
    let f = r.1;
    assert(f.len() <= 1);
    if f.len() == 1 {
        assert(actions_weight(f.drop_first()) == 0) by {
            assert(f.drop_first().len() == 0);
        }
    }
}

/// The in-flight counter after draining `n_events` completion
/// signals: each signal decrements it once, never below zero.
pub open spec fn drained_count(in_flight: u32, n_events: nat) -> u32 {
    if n_events >= in_flight {
        0u32
    } else {
        (in_flight - n_events) as u32
    }
}

/// Whether this tick's drain brought a positive counter down to zero
/// — the condition under which the tick reports turn completion.
pub open spec fn drain_processed(in_flight: u32, n_events: nat) -> bool {
    in_flight > 0 && n_events >= in_flight
}

/// The completion report at the end of a tick whose drain finished
/// the outstanding animations.
pub open spec fn completion_events(processed: bool, remaining: nat) -> Seq<OutEvent> {
    if processed {
        if remaining == 0 {
            seq![OutEvent::QueueProcessed]
        } else {
            seq![OutEvent::QueuePending]
        }
    } else {
        Seq::<OutEvent>::empty()
    }
}

/// Try candidates first-to-last until one executes; the world is
/// exactly as the succeeding candidate left it (failures change
/// nothing), mirroring `first_success`.
fn try_candidates(world: &mut GameWorld, cands: &Vec<Action>) -> (r: Option<(Action, Vec<Action>)>)
    requires
        old(world)@.wf(),
    ensures
        final(world)@.wf(),
        match first_success(old(world)@, cands@) {
            None => r is None && final(world)@ == old(world)@,
            Some(t) => r matches Some(p) && p.0 == t.1 && p.1@ == t.2 && final(world)@ == t.0,
        },
{
    let ghost w0 = old(world)@;
    let n = cands.len();
    let mut j: usize = 0;
    proof {
        assert(cands@.skip(0) =~= cands@);
    }
    while j < n
        invariant
            old(world)@.wf(),
            world@ == w0,
            w0 == old(world)@,
            j <= n,
            n == cands@.len(),
            first_success(w0, cands@) == first_success(w0, cands@.skip(j as int)),
        decreases n - j,
    {
        proof {
            assert(cands@.skip(j as int)[0] == cands@[j as int]);
            assert(cands@.skip(j as int).drop_first() =~= cands@.skip(j as int + 1));
        }
        let a = cands[j];
        match a.execute(world) {
            Ok(follow) => {
                proof {
                    assert(first_success(w0, cands@.skip(j as int)) == Some(
                        (world@, cands@[j as int], follow@),
                    ));
                }
                return Some((a, follow));
            },
            Err(_) => {},
        }
        j += 1;
    }
    proof {
        assert(cands@.skip(n as int).len() == 0);
    }
    None
}

/// One scheduler tick of turn resolution.
///
/// Step 1 drains the animation-finished signals received since the
/// last tick into the in-flight counter.  Step 2 returns immediately
/// if animations are still outstanding.  Step 3 runs the resolution
/// pass `run_pass`: the queue, the world, the counter and the emitted
/// events afterwards are exactly what that specification prescribes.
/// Step 4 reports `QueueProcessed` (turn done) or `QueuePending`
/// (diagnostic) when this tick's drain finished the last animation.
#[verifier::loop_isolation(false)]
pub fn process_action_queue(
    world: &mut GameWorld,
    queue: &mut ActionQueue,
    in_flight: &mut u32,
    finished: &Vec<EntityId>,
) -> (events: Vec<OutEvent>)
    requires
        old(world)@.wf(),
        *old(in_flight) + queue_weight(old(queue)@) <= u32::MAX,
    ensures
        final(world)@.wf(),
        ({
            let d = drained_count(*old(in_flight), finished@.len());
            let processed = drain_processed(*old(in_flight), finished@.len());
            let fin = run_pass(
                PassState {
                    world: old(world)@,
                    queue: old(queue)@,
                    started: Seq::empty(),
                    events: Seq::empty(),
                },
            );
            if d > 0 {
                final(world)@ == old(world)@ && final(queue)@ == old(queue)@ && *final(in_flight)
                    == d && events@ == Seq::<OutEvent>::empty()
            } else {
                final(world)@ == fin.world && final(queue)@ == fin.queue && *final(in_flight)
                    == fin.started.len() && events@ == fin.events + completion_events(
                    processed,
                    fin.queue.len(),
                )
            }
        }),
{
    // Step 1: drain completion signals (at most once each).
    let n_events = finished.len();
    let processed = *in_flight > 0 && n_events >= *in_flight as usize;
    if n_events >= *in_flight as usize {
        *in_flight = 0;
    } else {
        *in_flight = *in_flight - n_events as u32;
    }
    // Step 2: stall check — animations still playing.
    if *in_flight > 0 {
        return Vec::new();
    }
    // Step 3: pop and dispatch until the queue is empty or a blocking
    // (non-parallel) action starts.
    let ghost s0 = PassState {
        world: world@,
        queue: queue@,
        started: Seq::empty(),
        events: Seq::empty(),
    };
    let mut events: Vec<OutEvent> = Vec::new();
    let ghost mut started: Seq<(EntityId, Action)> = Seq::empty();
    let mut stop = false;
    while !stop && queue.0.len() != 0
        invariant
            world@.wf(),
            *in_flight == started.len(),
            started.len() + queue_weight(queue@) <= queue_weight(s0.queue),
            !stop ==> run_pass(
                PassState { world: world@, queue: queue@, started: started, events: events@ },
            ) == run_pass(s0),
            stop ==> (PassState {
                world: world@,
                queue: queue@,
                started: started,
                events: events@,
            }) == run_pass(s0),
        decreases queue_weight(queue@),
    {
        let ghost pre = PassState {
            world: world@,
            queue: queue@,
            started: started,
            events: events@,
        };
        let qa = queue.0.pop_front().unwrap();
        events.push(OutEvent::ProcessingAction { entity: qa.entity });
        proof {
            assert(pre.queue[0] == qa@);
            assert(queue@ =~= pre.queue.drop_first());
            lemma_queue_weight_drop_first(pre.queue);
        }
        let ghost s1 = PassState {
            queue: pre.queue.drop_first(),
            events: pre.events.push(OutEvent::ProcessingAction { entity: qa.entity }),
            ..pre
        };
        if world.is_dead(qa.entity) {
            // Dead actors never act: discard the entry, candidates
            // untried.
            proof {
                assert(run_pass(pre) == run_pass(s1));
                assert(PassState {
                    world: world@,
                    queue: queue@,
                    started: started,
                    events: events@,
                } =~= s1);
            }
            continue ;
        }
        match try_candidates(world, &qa.performable_actions) {
            None => {
                // Every candidate failed: the entry is dropped and
                // the turn is consumed with no effect.
                proof {
                    assert(run_pass(pre) == run_pass(s1));
                    assert(PassState {
                        world: world@,
                        queue: queue@,
                        started: started,
                        events: events@,
                    } =~= s1);
                }
            },
            Some((cand, follow)) => {
                let ghost r = first_success(s1.world, qa@.candidates)->Some_0;
                let ghost followv = follow@;
                proof {
                    lemma_first_success_weight(s1.world, qa@.candidates);
                    assert(started.len() + entry_weight(pre.queue[0]) + queue_weight(s1.queue)
                        <= queue_weight(s0.queue));
                    assert(started.len() < u32::MAX);
                }
                *in_flight = *in_flight + 1;
                // Record the running action for the animation layer.
                let ghost wmid = world@;
                match world.find_piece(qa.entity) {
                    Some(i) => {
                        let pc = world.pieces[i];
                        world.pieces[i] = Piece { running_action: Some(cand), ..pc };
                        proof {
                            crate::world::lemma_update_piece_wf(
                                wmid,
                                qa.entity,
                                Piece { running_action: Some(cand), ..pc },
                            );
                            assert(world@ =~= set_running(wmid, qa.entity, cand));
                        }
                    },
                    None => {
                        proof {
                            assert(world@ =~= set_running(wmid, qa.entity, cand));
                        }
                    },
                }
                // Follow-up actions jump the queue as one new entry.
                if follow.len() > 0 {
                    queue.0.push_front(
                        QueuedAction { entity: qa.entity, performable_actions: follow },
                    );
                    proof {
                        assert(queue@ =~= s1.queue.insert(
                            0,
                            QueuedActionV { entity: qa.entity, candidates: followv },
                        ));
                        lemma_queue_weight_insert_front(
                            s1.queue,
                            QueuedActionV { entity: qa.entity, candidates: followv },
                        );
                    }
                }
                proof {
                    started = started.push((qa.entity, cand));
                }
                let ghost s2 = PassState {
                    world: set_running(r.0, qa.entity, r.1),
                    queue: if r.2.len() > 0 {
                        s1.queue.insert(0, QueuedActionV { entity: qa.entity, candidates: r.2 })
                    } else {
                        s1.queue
                    },
                    started: s1.started.push((qa.entity, r.1)),
                    ..s1
                };
                proof {
                    assert(run_pass(pre) == if r.1.is_parallel_spec() {
                        run_pass(s2)
                    } else {
                        s2
                    });
                    assert(PassState {
                        world: world@,
                        queue: queue@,
                        started: started,
                        events: events@,
                    } =~= s2);
                }
                if !cand.is_parallel_execution() {
                    // A blocking action: wait for its animation before
                    // dispatching anything further.
                    stop = true;
                }
            },
        }
    }
    proof {
        if !stop {
            assert(run_pass(
                PassState { world: world@, queue: queue@, started: started, events: events@ },
            ) == PassState {
                world: world@,
                queue: queue@,
                started: started,
                events: events@,
            });
        }
    }
    // Step 4: completion check.
    let ghost fin = run_pass(s0);
    if processed {
        if queue.0.len() == 0 {
            events.push(OutEvent::QueueProcessed);
        } else {
            events.push(OutEvent::QueuePending);
        }
    }
    proof {
        assert(events@ =~= fin.events + completion_events(processed, fin.queue.len()));
    }
    events
}

/// The follow-ups a first-succeeding candidate creates weigh strictly
/// less than the candidate list it came from.
pub proof fn lemma_first_success_weight(w: WorldV, cands: Seq<Action>)
    requires
        first_success(w, cands) is Some,
    ensures
        ({
            let r = first_success(w, cands)->Some_0;
            actions_weight(r.2) + 1 <= actions_weight(cands)
        }),
    decreases cands.len(),
{
    let r = first_success(w, cands)->Some_0;
    if cands.len() > 0 {
        match execute_spec(w, cands[0]) {
            Some(_) => {
                lemma_follow_weight(w, cands[0]);
                lemma_actions_weight_elem(cands, 0);
            },
            None => {
                lemma_first_success_weight(w, cands.drop_first());
            },
        }
    }
}

} // verus!
