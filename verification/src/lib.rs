//! A tick-based multi-agent role-assignment and action-resolution engine.
//!
//! Each tick the engine gathers a pool of games (tasks with typed role slots
//! and multiplicity bounds), assigns available agents to role slots, lets each
//! assigned agent's role transform its action repertoire, lets the agent pick
//! one action through its decision policy, and applies the chosen action's
//! effect to the shared state.  A played game may schedule a delayed follow-up
//! game for a future tick.

pub mod actions;
pub mod agent;
pub mod assigner;
pub mod config;
pub mod decider;
pub mod engine;
pub mod game;
pub mod resources;
pub mod rng;
pub mod roles;
