//! In-memory social-graph store: profiles, posts, comments, follow and like
//! edges, with redundantly maintained counters that are proved to stay
//! consistent with the underlying collections after every operation.
//!
//! Caller identity arrives as an opaque principal rendered to text, and the
//! current time arrives as a plain integer; both are supplied by the boundary
//! layer that owns transport and authentication.

pub mod strings;
pub mod sset;
pub mod smap;
pub mod types;
pub mod model;
pub mod store;
pub mod laws;
