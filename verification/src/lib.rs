//! Verified core of the benefit engine: repository query builders, the
//! MapReduce coordinator state machine, the worker's map/reduce pipeline,
//! ingestion planning and the evaluator's decision logic.

pub mod sql;
pub mod time;
pub mod text;
pub mod order;
pub mod codec;
pub mod messages;
pub mod coordinator;
pub mod worker;
pub mod transaction_summary;
pub mod reduced;
pub mod json;
pub mod evaluator;
pub mod ingestion;
pub mod client;
pub mod presentation;
pub mod benefits;
pub mod scheduler;
pub mod models;
pub mod paths;
pub mod report;
