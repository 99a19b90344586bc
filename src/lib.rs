//! Positional line differencing: two line sequences are paired position by
//! position, differing positions become difference events, and runs of
//! consecutive differences are grouped into capped batches.

pub mod difference;
pub mod batcher;
pub mod pairing;
pub mod render;
pub mod laws;
