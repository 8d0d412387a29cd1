//! A lock-free rendezvous coordinator for pairwise meetings of actors
//! ("chameneos"), together with a few small concurrency and arithmetic
//! building blocks.

pub mod actor;
pub mod color;
pub mod coordinator;
pub mod locks;
pub mod packed;
pub mod report;
pub mod rng;
