//! A minimal entity-component runtime with machine-checked contracts.
//!
//! Entities are generation-checked identifiers, components are values stored
//! under a type identifier, resources are singletons keyed by type. Systems
//! declare what they read and write; the scheduler admits them, orders them,
//! and runs them phase by phase, applying structural changes at the boundary
//! of each pass.
//!
//! The core is `entity`, `state`, `world`, `resources`, `access`, `query`,
//! `commands`, `context`, `plan`, `schedule` and `runtime`. The modules
//! `game`, `systems`, `plugins`, `hello`, `moving_circle`, `chess`, `input`
//! and `timer` hold three small plugins built on it.

pub mod access;
pub mod chess;
pub mod commands;
pub mod context;
pub mod entity;
pub mod game;
pub mod hello;
pub mod input;
pub mod moving_circle;
pub mod plan;
pub mod plugins;
pub mod query;
pub mod resources;
pub mod runtime;
pub mod schedule;
pub mod sparse;
pub mod state;
pub mod state_lemmas;
pub mod systems;
pub mod timer;
pub mod world;
