//! A font-instance cache with a two-phase "queue, then resolve" protocol,
//! and a one-way handle for a cache that is built in the background.

pub mod deferred;
pub mod error;
pub mod font_map;
pub mod outside;
