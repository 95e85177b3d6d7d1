//! The closed set of actions and what each does to the world.
//!
//! Every action supports the same four capabilities: a side-effect-free
//! precondition, execution against a mutable world (returning follow-up
//! actions or failure), a parallelizability flag, and a tag the
//! animation layer can match on (the enum itself).

use vstd::prelude::*;
use crate::grid::Coord;
use crate::grid::EntityId;
use crate::spells::ProjectileSpell;
use crate::spells::Spell;
use crate::spells::SpellType;
use crate::world::GameWorld;
use crate::world::Piece;
use crate::world::TerrainType;
use crate::world::WorldV;
use crate::world::first_health_at_rec;
use crate::world::lemma_remove_piece_wf;
use crate::world::lemma_update_piece_wf;

verus! {

/// Move a piece one tile.
#[derive(Debug, Clone, Copy, PartialEq)]
pub struct WalkAction {
    pub entity: EntityId,
    pub to: Coord,
    pub from: Coord,
}

/// Do nothing; the turn is consumed.
#[derive(Debug, Clone, Copy, PartialEq)]
pub struct SkipAction;

/// Deal the given damage to the target entity's health component.
#[derive(Debug, Clone, Copy, PartialEq)]
pub struct DamageAction(pub EntityId, pub u32);

/// Cast a spell: orient the caster, pick a target tile along its
/// facing, and emit the projectile as a follow-up action.
#[derive(Debug, Clone, Copy, PartialEq)]
pub struct SpellAction {
    pub caster: EntityId,
    pub spell: Spell,
}

/// A spell projectile in flight toward a target tile; on execution it
/// emits damage to the first piece found there.
#[derive(Debug, Clone, Copy, PartialEq)]
pub struct SpellProjectileAction {
    pub caster: EntityId,
    pub projectile: ProjectileSpell,
    pub spell: Spell,
    pub target: Coord,
}

/// A unit of game behaviour, as a closed tagged enumeration: the
/// animation layer matches on the tag instead of downcasting.
#[derive(Debug, Clone, Copy, PartialEq)]
pub enum Action {
    Walk(WalkAction),
    Skip(SkipAction),
    Damage(DamageAction),
    Spell(SpellAction),
    SpellProjectile(SpellProjectileAction),
}

impl Action {
    /// Whether the loop may dispatch further queue entries in the same
    /// tick without waiting for this action's animation.
    pub open spec fn is_parallel_spec(self) -> bool {
        match self {
            Action::Walk(_) => true,
            Action::Skip(_) => true,
            Action::Damage(_) => false,
            Action::Spell(_) => false,
            Action::SpellProjectile(_) => false,
        }
    }

    pub fn is_parallel_execution(&self) -> (r: bool)
        ensures
            r == self.is_parallel_spec(),
    {
        match self {
            Action::Walk(_) => true,
            Action::Skip(_) => true,
            Action::Damage(_) => false,
            Action::Spell(_) => false,
            Action::SpellProjectile(_) => false,
        }
    }
}

/// The unit sign of each component of `d`: the facing a piece takes
/// when it turns toward `d` relative to its own position.
pub open spec fn sign_coord(d: Coord) -> Coord {
    Coord {
        x: if d.x > 0 { 1i32 } else if d.x < 0 { -1i32 } else { 0i32 },
        y: if d.y > 0 { 1i32 } else if d.y < 0 { -1i32 } else { 0i32 },
    }
}

/// The facing a piece at `at` takes when it turns toward `to`.
pub open spec fn orient_toward(at: Coord, to: Coord) -> Coord {
    Coord {
        x: if to.x > at.x { 1i32 } else if to.x < at.x { -1i32 } else { 0i32 },
        y: if to.y > at.y { 1i32 } else if to.y < at.y { -1i32 } else { 0i32 },
    }
}

/// A walk is possible when the target tile is ground and unoccupied.
pub open spec fn walk_can_execute(w: WorldV, wa: WalkAction) -> bool {
    w.terrain_at(wa.to) == Some(TerrainType::Ground) && !w.occupied(wa.to)
}

/// The side-effect-free precondition of an action.  Only walks have a
/// non-trivial one; other actions validate inside `execute` instead.
pub open spec fn can_execute_spec(w: WorldV, a: Action) -> bool {
    match a {
        Action::Walk(wa) => walk_can_execute(w, wa),
        _ => true,
    }
}

impl Action {
    /// Side-effect-free precondition check, usable both to pre-filter
    /// candidates and to re-validate just before execution.
    pub fn can_execute(&self, world: &GameWorld) -> (r: bool)
        requires
            world@.wf(),
        ensures
            r == can_execute_spec(world@, *self),
    {
        match self {
            Action::Walk(wa) => {
                let ground = match world.terrain_at(wa.to) {
                    Some(TerrainType::Ground) => true,
                    _ => false,
                };
                ground && !world.occupied(wa.to)
            },
            _ => true,
        }
    }
}

/// Whether a mathematical value fits an `i32` coordinate.
pub open spec fn in_i32(v: int) -> bool {
    i32::MIN <= v <= i32::MAX
}

/// Damage below zero deals nothing.
pub open spec fn clamp_damage(d: i32) -> u32 {
    if d < 0 {
        0u32
    } else {
        d as u32
    }
}

/// What a walk does: re-validate the precondition, then turn the piece
/// toward the target tile and move it there.  Fails (leaving the world
/// unchanged) when the precondition no longer holds or the entity has
/// no position to move from.
pub open spec fn walk_execute_spec(w: WorldV, wa: WalkAction) -> Option<(WorldV, Seq<Action>)> {
    if !walk_can_execute(w, wa) {
        None
    } else if !w.has_piece(wa.entity) {
        None
    } else {
        let p = w.piece(wa.entity);
        match p.position {
            None => None,
            Some(at) => {
                let moved = Piece {
                    facing: Some(orient_toward(at, wa.to)),
                    position: Some(wa.to),
                    ..p
                };
                Some((w.update_piece(wa.entity, moved), Seq::empty()))
            },
        }
    }
}

/// What damage does: saturating-subtract from the target's health;
/// a piece whose health reaches zero is despawned.  Fails when the
/// target has no health component.
pub open spec fn damage_execute_spec(w: WorldV, da: DamageAction) -> Option<
    (WorldV, Seq<Action>),
> {
    if !w.has_piece(da.0) {
        None
    } else {
        let p = w.piece(da.0);
        match p.health {
            None => None,
            Some(h) => {
                let h2: u32 = if h >= da.1 {
                    (h - da.1) as u32
                } else {
                    0u32
                };
                if h2 == 0 {
                    Some((w.remove_piece(da.0), Seq::empty()))
                } else {
                    Some((w.update_piece(da.0, Piece { health: Some(h2), ..p }), Seq::empty()))
                }
            },
        }
    }
}

/// The target tile a cast finds: walk the facing ray from `start` to
/// `end` steps out and stop at the first tile holding a piece with
/// health; with no hit, the default is the tile `end` steps out.
/// `None` when a scanned tile does not fit the coordinate range (the
/// cast fails rather than wrap around).
pub open spec fn spell_scan(
    w: WorldV,
    dir: Coord,
    pos: Coord,
    i: int,
    end: int,
    deft: Coord,
) -> Option<Coord>
    decreases end + 1 - i,
{
    if i > end {
        Some(deft)
    } else {
        let tx: int = pos.x + dir.x * i;
        let ty: int = pos.y + dir.y * i;
        if !(in_i32(tx) && in_i32(ty)) {
            None
        } else {
            let c = Coord { x: tx as i32, y: ty as i32 };
            if w.any_health_at(c) {
                Some(c)
            } else {
                spell_scan(w, dir, pos, i + 1, end, deft)
            }
        }
    }
}

/// What a cast does: the caster (which must have facing and position)
/// turns along its facing, a target tile is picked by `spell_scan`,
/// and the projectile goes out as a follow-up action.
pub open spec fn spell_execute_spec(w: WorldV, sa: SpellAction) -> Option<(WorldV, Seq<Action>)> {
    if !w.has_piece(sa.caster) {
        None
    } else {
        let p = w.piece(sa.caster);
        match (p.facing, p.position) {
            (Some(dir), Some(pos)) => {
                let tx: int = pos.x + dir.x * sa.spell.range.end;
                let ty: int = pos.y + dir.y * sa.spell.range.end;
                if !(in_i32(tx) && in_i32(ty)) {
                    None
                } else {
                    let deft = Coord { x: tx as i32, y: ty as i32 };
                    match spell_scan(
                        w,
                        dir,
                        pos,
                        sa.spell.range.start as int,
                        sa.spell.range.end as int,
                        deft,
                    ) {
                        None => None,
                        Some(target) => {
                            let faced = Piece { facing: Some(sign_coord(dir)), ..p };
                            let w1 = w.update_piece(sa.caster, faced);
                            let follow = match sa.spell.spell_type {
                                SpellType::Projectile(ps) => seq![
                                    Action::SpellProjectile(
                                        SpellProjectileAction {
                                            caster: sa.caster,
                                            projectile: ps,
                                            spell: sa.spell,
                                            target,
                                        },
                                    ),
                                ],
                            };
                            Some((w1, follow))
                        },
                    }
                }
            },
            _ => None,
        }
    }
}

/// What a projectile does on arrival: deal the spell's hit damage to
/// the first piece with health at the target tile, as a follow-up
/// damage action.  Always succeeds; an empty tile just fizzles.
pub open spec fn projectile_execute_spec(w: WorldV, pa: SpellProjectileAction) -> Option<
    (WorldV, Seq<Action>),
> {
    match first_health_at_rec(w.pieces, pa.target) {
        Some(e) => Some(
            (
                w,
                seq![Action::Damage(DamageAction(e, clamp_damage(pa.spell.hit.damage)))],
            ),
        ),
        None => Some((w, Seq::empty())),
    }
}

/// What executing an action does to the world: `None` is failure (the
/// world is left unchanged), `Some` carries the new world and the
/// follow-up actions to queue with priority.
pub open spec fn execute_spec(w: WorldV, a: Action) -> Option<(WorldV, Seq<Action>)> {
    match a {
        Action::Walk(wa) => walk_execute_spec(w, wa),
        Action::Skip(_) => Some((w, Seq::empty())),
        Action::Damage(da) => damage_execute_spec(w, da),
        Action::Spell(sa) => spell_execute_spec(w, sa),
        Action::SpellProjectile(pa) => projectile_execute_spec(w, pa),
    }
}

impl Action {
    /// Execute this action against the world.  On success the
    /// returned actions are follow-ups to run with priority over the
    /// rest of the queue.  Failure is local and silent — the caller
    /// tries the next candidate — and on failure no world mutation is
    /// observably committed.
    pub fn execute(&self, world: &mut GameWorld) -> (r: Result<Vec<Action>, ()>)
        requires
            old(world)@.wf(),
        ensures
            final(world)@.wf(),
            match execute_spec(old(world)@, *self) {
                Some(wf2) => r matches Ok(v) && final(world)@ == wf2.0 && v@ == wf2.1,
                None => r is Err && final(world)@ == old(world)@,
            },
    {
        match self {
            Action::Walk(wa) => walk_execute(world, wa),
            Action::Skip(_) => Ok(Vec::new()),
            Action::Damage(da) => damage_execute(world, da),
            Action::Spell(sa) => spell_execute(world, sa),
            Action::SpellProjectile(pa) => projectile_execute(world, pa),
        }
    }
}

fn walk_execute(world: &mut GameWorld, wa: &WalkAction) -> (r: Result<Vec<Action>, ()>)
    requires
        old(world)@.wf(),
    ensures
        final(world)@.wf(),
        match walk_execute_spec(old(world)@, *wa) {
            Some(wf2) => r matches Ok(v) && final(world)@ == wf2.0 && v@ == wf2.1,
            None => r is Err && final(world)@ == old(world)@,
        },
{
    let walk = Action::Walk(*wa);
    if !walk.can_execute(world) {
        return Err(());
    }
    let idx = match world.find_piece(wa.entity) {
        Some(i) => i,
        None => {
            return Err(());
        },
    };
    let p = world.pieces[idx];
    let at = match p.position {
        Some(c) => c,
        None => {
            return Err(());
        },
    };
    let facing = Coord {
        x: if wa.to.x > at.x {
            1i32
        } else if wa.to.x < at.x {
            -1i32
        } else {
            0i32
        },
        y: if wa.to.y > at.y {
            1i32
        } else if wa.to.y < at.y {
            -1i32
        } else {
            0i32
        },
    };
    let moved = Piece { facing: Some(facing), position: Some(wa.to), ..p };
    world.pieces[idx] = moved;
    proof {
        lemma_update_piece_wf(old(world)@, wa.entity, moved);
        assert(final(world)@ =~= old(world)@.update_piece(wa.entity, moved));
    }
    Ok(Vec::new())
}

fn damage_execute(world: &mut GameWorld, da: &DamageAction) -> (r: Result<Vec<Action>, ()>)
    requires
        old(world)@.wf(),
    ensures
        final(world)@.wf(),
        match damage_execute_spec(old(world)@, *da) {
            Some(wf2) => r matches Ok(v) && final(world)@ == wf2.0 && v@ == wf2.1,
            None => r is Err && final(world)@ == old(world)@,
        },
{
    let idx = match world.find_piece(da.0) {
        Some(i) => i,
        None => {
            return Err(());
        },
    };
    let p = world.pieces[idx];
    let h = match p.health {
        Some(h) => h,
        None => {
            return Err(());
        },
    };
    let h2: u32 = if h >= da.1 {
        h - da.1
    } else {
        0
    };
    if h2 == 0 {
        world.pieces.remove(idx);
        proof {
            lemma_remove_piece_wf(old(world)@, da.0);
            assert(final(world)@ =~= old(world)@.remove_piece(da.0));
        }
    } else {
        let hurt = Piece { health: Some(h2), ..p };
        world.pieces[idx] = hurt;
        proof {
            lemma_update_piece_wf(old(world)@, da.0, hurt);
            assert(final(world)@ =~= old(world)@.update_piece(da.0, hurt));
        }
    }
    Ok(Vec::new())
}

fn projectile_execute(world: &mut GameWorld, pa: &SpellProjectileAction) -> (r: Result<
    Vec<Action>,
    (),
>)
    requires
        old(world)@.wf(),
    ensures
        final(world)@.wf(),
        match projectile_execute_spec(old(world)@, *pa) {
            Some(wf2) => r matches Ok(v) && final(world)@ == wf2.0 && v@ == wf2.1,
            None => r is Err && final(world)@ == old(world)@,
        },
{
    match world.first_health_at(pa.target) {
        Some(e) => {
            let dmg: u32 = if pa.spell.hit.damage < 0 {
                0
            } else {
                pa.spell.hit.damage as u32
            };
            let mut follow: Vec<Action> = Vec::new();
            follow.push(Action::Damage(DamageAction(e, dmg)));
            proof {
                assert(follow@ =~= seq![
                    Action::Damage(DamageAction(e, clamp_damage(pa.spell.hit.damage))),
                ]);
            }
            Ok(follow)
        },
        None => Ok(Vec::new()),
    }
}

#[verifier::loop_isolation(false)]
fn spell_execute(world: &mut GameWorld, sa: &SpellAction) -> (r: Result<Vec<Action>, ()>)
    requires
        old(world)@.wf(),
    ensures
        final(world)@.wf(),
        match spell_execute_spec(old(world)@, *sa) {
            Some(wf2) => r matches Ok(v) && final(world)@ == wf2.0 && v@ == wf2.1,
            None => r is Err && final(world)@ == old(world)@,
        },
{
    let idx = match world.find_piece(sa.caster) {
        Some(i) => i,
        None => {
            return Err(());
        },
    };
    let p = world.pieces[idx];
    let (dir, pos) = match (p.facing, p.position) {
        (Some(d), Some(c)) => (d, c),
        _ => {
            return Err(());
        },
    };
    let endi: i64 = sa.spell.range.end as i64;
    proof {
        lemma_mul_i32_fits_i64(dir.x as int, sa.spell.range.end as int);
        lemma_mul_i32_fits_i64(dir.y as int, sa.spell.range.end as int);
    }
    let tx: i64 = pos.x as i64 + dir.x as i64 * endi;
    let ty: i64 = pos.y as i64 + dir.y as i64 * endi;
    if tx < i32::MIN as i64 || tx > i32::MAX as i64 || ty < i32::MIN as i64 || ty
        > i32::MAX as i64 {
        return Err(());
    }
    let deft = Coord { x: tx as i32, y: ty as i32 };
    let ghost w0 = world@;
    let ghost starti = sa.spell.range.start as int;
    let mut i: i64 = sa.spell.range.start as i64;
    let mut target: Option<Coord> = None;
    while i <= endi && target.is_none()
        invariant
            world@ == w0,
            w0.wf(),
            endi == sa.spell.range.end as int,
            starti == sa.spell.range.start as int,
            starti <= i,
            target matches Some(t) ==> spell_scan(w0, dir, pos, starti, endi as int, deft)
                == Some(t),
            target is None ==> spell_scan(w0, dir, pos, starti, endi as int, deft) == spell_scan(
                w0,
                dir,
                pos,
                i as int,
                endi as int,
                deft,
            ),
        decreases endi - i + 1, (if target is None { 1int } else { 0int }),
    {
        proof {
            lemma_mul_i32_fits_i64(dir.x as int, i as int);
            lemma_mul_i32_fits_i64(dir.y as int, i as int);
        }
        let sx: i64 = pos.x as i64 + dir.x as i64 * i;
        let sy: i64 = pos.y as i64 + dir.y as i64 * i;
        if sx < i32::MIN as i64 || sx > i32::MAX as i64 || sy < i32::MIN as i64 || sy
            > i32::MAX as i64 {
            proof {
                assert(spell_scan(w0, dir, pos, i as int, endi as int, deft) is None);
            }
            return Err(());
        }
        let c = Coord { x: sx as i32, y: sy as i32 };
        if world.has_health_at(c) {
            target = Some(c);
            proof {
                assert(spell_scan(w0, dir, pos, i as int, endi as int, deft) == Some(c));
            }
        } else {
            i = i + 1;
        }
    }
    proof {
        if target is None {
            assert(spell_scan(w0, dir, pos, i as int, endi as int, deft) == Some(deft));
        }
    }
    let target = match target {
        Some(t) => t,
        None => deft,
    };
    let faced = Piece {
        facing: Some(
            Coord {
                x: if dir.x > 0 {
                    1i32
                } else if dir.x < 0 {
                    -1i32
                } else {
                    0i32
                },
                y: if dir.y > 0 {
                    1i32
                } else if dir.y < 0 {
                    -1i32
                } else {
                    0i32
                },
            },
        ),
        ..p
    };
    world.pieces[idx] = faced;
    proof {
        lemma_update_piece_wf(old(world)@, sa.caster, faced);
        assert(final(world)@ =~= old(world)@.update_piece(sa.caster, faced));
    }
    let mut follow: Vec<Action> = Vec::new();
    match sa.spell.spell_type {
        SpellType::Projectile(ps) => {
            follow.push(
                Action::SpellProjectile(
                    SpellProjectileAction {
                        caster: sa.caster,
                        projectile: ps,
                        spell: sa.spell,
                        target,
                    },
                ),
            );
            proof {
                assert(follow@ =~= seq![
                    Action::SpellProjectile(
                        SpellProjectileAction {
                            caster: sa.caster,
                            projectile: ps,
                            spell: sa.spell,
                            target,
                        },
                    ),
                ]);
            }
        },
    }
    Ok(follow)
}

/// The product of two `i32`-ranged values fits an `i64`.
proof fn lemma_mul_i32_fits_i64(a: int, b: int)
    requires
        i32::MIN <= a <= i32::MAX,
        i32::MIN <= b <= i32::MAX,
    ensures
        -0x4000_0000_0000_0000 <= a * b <= 0x4000_0000_0000_0000,
{
    assert(-0x4000_0000_0000_0000 <= a * b <= 0x4000_0000_0000_0000) by (nonlinear_arith)
        requires
            -0x8000_0000 <= a <= 0x7fff_ffff,
            -0x8000_0000 <= b <= 0x7fff_ffff,
    ;
}

} // verus!
