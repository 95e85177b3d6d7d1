//! Turn-resolution core for a tile-based tactics game.
//!
//! The crate models the durable state of a turn — an ordered queue of
//! pending actions, the world the actions mutate, and an in-flight
//! animation counter — and proves how one resolution tick transforms
//! them: dead actors are skipped, fallback candidates are tried in
//! order, follow-up actions are queued with priority, and a
//! non-parallel action halts further dispatch until its animation
//! completes.  A utility planner scores candidate moves for non-player
//! actors, biased by a verified grid path search.

pub mod grid;

pub mod anim_key;

pub mod spells;

pub mod world;

pub mod actions;

pub mod action_queue;

pub mod action_animation;

pub mod pathfinding;

pub mod ai;

pub mod pokemon_data;

pub mod pokemons;
