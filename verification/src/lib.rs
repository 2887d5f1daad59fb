//! Scheduler abstraction and output-normalization layer for a cluster
//! dashboard: canonical node/job entities, defensive parsers for the text
//! output of Slurm- and Torque-style scheduler tools, a synthetic backend,
//! and the refresh/derive pipeline that turns a raw snapshot into sorted,
//! aggregated view state.

pub mod mock;
pub mod models;
pub mod pipeline;
pub mod scheduler;
pub mod slurm;
pub mod text;
pub mod torque;
