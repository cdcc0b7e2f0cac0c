//! Admission-controlled tracking of remote processes that must catch up to a
//! live slot counter: the process records and their lifecycle, the FIFO
//! admission queue with its concurrency bound, the bookkeeping applied after
//! every slot and reserve observation, and the snapshot used to survive
//! restarts.
pub mod api;
pub mod config;
pub mod hyperbeam;
pub mod laws;
pub mod model;
pub mod models;
pub mod queue;
pub mod report;
pub mod reserves;
pub mod state;
pub mod sync;
pub mod text;
pub mod time;
