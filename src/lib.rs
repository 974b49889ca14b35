//! A small user-record service: a slot arena that reuses freed identifiers,
//! and a dispatcher that maps a method and a path onto arena operations.

pub mod store;
pub mod arena;
pub mod text;
pub mod router;
pub mod service;
pub mod laws;
