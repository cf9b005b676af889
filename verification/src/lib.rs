//! A dependency-injection kernel: singleton services ("beans") that live in
//! places, are brought up once in registration order, are looked up by key or
//! by alias while the kernel is active, and are torn down once at the end.
//!
//! The lifecycle is held by capability tokens ([`life::InitPhase`],
//! [`life::ActivePhase`]) and by the state that every place keeps of itself,
//! so that no bean is read before it was written or after it was dropped.

pub mod key;
pub mod error;
pub mod life;
pub mod place;
pub mod config;
pub mod ledger;
pub mod registry;
pub mod init;
pub mod ctx;
pub mod alias;
pub mod context;
pub mod prelude;
