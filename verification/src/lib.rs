//! Deterministic document atom store: validation, lifecycle transitions,
//! composition, recall and the on-disk text format of atoms.
pub mod compute;
pub mod error;
pub mod keyed;
pub mod lifecycle;
pub mod model;
pub mod ops;
pub mod store;
pub mod text;

pub use error::{Error, SlugConflict};
pub use model::atom::{Atom, Freshness, ImplPaths};
pub use model::composed::ComposedDoc;
pub use model::status::Status;
pub use model::timestamp::Timestamp;
