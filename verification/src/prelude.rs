//! The names that a user of the kernel needs, in one place.

pub use crate::alias::AliasTable;
pub use crate::config::{CfgParams, CfgSource, ConfigSource, IsConfig, Plain, Setting, Stored};
pub use crate::context::Context;
pub use crate::ctx::Ctx;
pub use crate::error::{ConfigFault, Error, Violation};
pub use crate::init::{InitCtx, Stage};
pub use crate::key::{Alias, Binding, Key};
pub use crate::ledger::{Entry, Hooks, Ledger};
pub use crate::life::{ActivePhase, InitPhase, Latch, Place, UninitPhase};
pub use crate::place::{Slot, StaticPlace, UninitSlot};
pub use crate::registry::Registry;
