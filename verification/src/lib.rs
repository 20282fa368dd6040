//! Game rules of the canum shooter: damage and shields, boss behaviors,
//! progress bookkeeping, session setup and small visual-effect state machines.

use vstd::prelude::*;

pub mod entity;
pub mod health;
pub mod text;
pub mod names;
pub mod config;
pub mod progress;
pub mod session;
pub mod timer;
pub mod behavior;
pub mod fx;
pub mod combat;
pub mod controls;
pub mod addons;
pub mod animation;
