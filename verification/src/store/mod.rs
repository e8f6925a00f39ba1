//! The on-disk side of the store: layout of paths, the text formats of atoms,
//! documents and configuration, and the store handle.
pub mod error;
pub mod io;
pub mod layout;
pub mod replace;
pub mod scalar;
pub mod serialize;
pub mod serialize_config;
pub mod serialize_doc;
