//! The link to the testing system: frames in both directions.

pub mod gateway;
