//! Core of a desktop search-provider service for IDE-like applications.
//!
//! For each installed application the service keeps an in-memory index of
//! recently used projects, answers search-protocol queries against it, and
//! can launch the application for a chosen project.  This crate holds the
//! verified core: the project index and its ordering, the query matching
//! rules, the bounded actor mailbox, the enable gate, the launch bookkeeping
//! and the provider registry.  The surrounding process (bus connection,
//! main loop, settings storage, process spawning) drives this core and is
//! kept outside it.

pub mod text;
pub mod index;
pub mod actor;
pub mod mailbox;
pub mod gate;
pub mod launch;
pub mod registry;
