//! Animation dispatch: which animation the rendering layer plays for
//! a started action.
//!
//! The resolution loop records each started action on its entity; the
//! host's animation layer asks this table what to play.  The decision
//! is a total match on the closed action enumeration — no runtime
//! type inspection — and is the only part of animation handling that
//! is game logic; interpolating transforms and spawning sprites stay
//! with the host renderer.

use vstd::prelude::*;
use crate::actions::Action;
use crate::anim_key::AnimKey;
use crate::grid::Coord;
use crate::grid::EntityId;

verus! {

/// The animation a started action triggers.
#[derive(Debug, Clone, Copy, PartialEq)]
pub enum ActionAnimation {
    /// Slide the acting entity between two tiles.
    Move { entity: EntityId, from: Coord, to: Coord },
    /// Play the attack clip on the acting entity.
    Attack { entity: EntityId },
    /// Play the hurt clip on the damaged entity (not the actor).
    Hurt { target: EntityId },
    /// Spawn a travelling effect toward the target tile.
    Projectile { visual_effect: &'static str, to: Coord },
    /// Nothing to show: report the animation finished at once.
    Finished,
}

/// The dispatch table: walks slide the walker, damage hurts its
/// target, casts play the caster's attack clip, projectiles spawn a
/// travelling effect, and a skip finishes immediately.
pub open spec fn animation_for_spec(actor: EntityId, a: Action) -> ActionAnimation {
    match a {
        Action::Walk(w) => ActionAnimation::Move { entity: w.entity, from: w.from, to: w.to },
        Action::Skip(_) => ActionAnimation::Finished,
        Action::Damage(d) => ActionAnimation::Hurt { target: d.0 },
        Action::Spell(_) => ActionAnimation::Attack { entity: actor },
        Action::SpellProjectile(p) => ActionAnimation::Projectile {
            visual_effect: p.projectile.visual_effect,
            to: p.target,
        },
    }
}

/// Pick the animation for an action started by `actor`.
pub fn animation_for(actor: EntityId, a: &Action) -> (r: ActionAnimation)
    ensures
        r == animation_for_spec(actor, *a),
{
    match a {
        Action::Walk(w) => ActionAnimation::Move { entity: w.entity, from: w.from, to: w.to },
        Action::Skip(_) => ActionAnimation::Finished,
        Action::Damage(d) => ActionAnimation::Hurt { target: d.0 },
        Action::Spell(_) => ActionAnimation::Attack { entity: actor },
        Action::SpellProjectile(p) => ActionAnimation::Projectile {
            visual_effect: p.projectile.visual_effect,
            to: p.target,
        },
    }
}

/// The character clip each animation puts its entity in; entities
/// with nothing playing stand in the idle clip.
pub open spec fn anim_key_for_spec(anim: ActionAnimation) -> AnimKey {
    match anim {
        ActionAnimation::Move { .. } => AnimKey::Walk,
        ActionAnimation::Attack { .. } => AnimKey::Attack,
        ActionAnimation::Hurt { .. } => AnimKey::Hurt,
        ActionAnimation::Projectile { .. } => AnimKey::Idle,
        ActionAnimation::Finished => AnimKey::Idle,
    }
}

pub fn anim_key_for(anim: &ActionAnimation) -> (r: AnimKey)
    ensures
        r == anim_key_for_spec(*anim),
{
    match anim {
        ActionAnimation::Move { .. } => AnimKey::Walk,
        ActionAnimation::Attack { .. } => AnimKey::Attack,
        ActionAnimation::Hurt { .. } => AnimKey::Hurt,
        ActionAnimation::Projectile { .. } => AnimKey::Idle,
        ActionAnimation::Finished => AnimKey::Idle,
    }
}

} // verus!
