//! Pure computations over atoms: keyword recall and the inputs of freshness scoring.
pub mod freshness;
pub mod query;
