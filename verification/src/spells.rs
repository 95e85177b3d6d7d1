//! Spell descriptions: static data an action carries to execute a cast.

use vstd::prelude::*;
use crate::anim_key::AnimKey;

verus! {

/// The visual effect a projectile spell spawns while it travels.
#[derive(Debug, Clone, Copy, PartialEq, Eq)]
pub struct ProjectileSpell {
    pub visual_effect: &'static str,
}

/// How a spell delivers its effect.
#[derive(Debug, Clone, Copy, PartialEq, Eq)]
pub enum SpellType {
    Projectile(ProjectileSpell),
}

/// What happens at the tile a spell hits.
#[derive(Debug, Clone, Copy, PartialEq, Eq)]
pub struct SpellHit {
    pub visual_effect: &'static str,
    pub damage: i32,
}

/// What the caster shows while casting.
#[derive(Debug, Clone, Copy, PartialEq, Eq)]
pub struct SpellCast {
    pub visual_effect: &'static str,
    pub animation: AnimKey,
}

/// The tile distances, measured along the caster's facing, at which a
/// spell can find a target: every step from `start` to `end` inclusive.
#[derive(Debug, Clone, Copy, PartialEq, Eq, Structural)]
pub struct SpellRange {
    pub start: i32,
    pub end: i32,
}

/// A complete spell description.
#[derive(Debug, Clone, Copy, PartialEq, Eq)]
pub struct Spell {
    pub name: &'static str,
    pub range: SpellRange,
    pub spell_type: SpellType,
    pub hit: SpellHit,
    pub cast: SpellCast,
}

} // verus!
