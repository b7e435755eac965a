//! Helpers for resolving two candidate entities against one or two
//! lookup capabilities.
//!
//! A capability is anything that can be asked "does this entity match,
//! and what item does it carry?". `query::Query` is such a capability
//! with a verified contract over its map view; `query` adds the
//! "either of two entities" helpers on a single capability, and
//! `tuple` pairs two capabilities against two candidates.

pub mod query;
pub mod tuple;

pub use query::Entity;
pub use query::NoSuchEntity;
pub use query::Query;
pub use query::TwoEntitiesMutQueryExt;
pub use query::TwoEntitiesQueryExt;
pub use query::pick_either;
pub use tuple::TupleQueryExt;
pub use tuple::get_both_mut;
