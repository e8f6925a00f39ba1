//! The data model: status, atoms and their freshness, composed documents,
//! slugs and timestamps.
pub mod atom;
pub mod calendar;
pub mod composed;
pub mod fmt;
pub mod slug;
pub mod status;
pub mod timestamp;
