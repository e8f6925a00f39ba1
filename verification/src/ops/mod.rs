//! Operations on atoms and documents.
pub mod compose;
pub mod id;
pub mod filter;
pub mod activate;
pub mod add;
pub mod edit;
