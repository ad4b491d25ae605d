//! A parallel execution scheduler for blocks of EVM transactions, with machine-checked contracts.
//!
//! Every type here is a state machine: one method call is one atomic step. The surrounding
//! application shares the machines between threads behind locks and performs the parking, the
//! EVM invocations and the database reads that the steps ask for.

pub mod access_list;
pub mod account;
pub mod atomic;
pub mod block_index;
pub mod budget;
pub mod bundle;
pub mod cache;
pub mod commit;
pub mod concurrent_db;
pub mod config;
pub mod context;
pub mod control;
pub mod delegated_safety;
pub mod dependency_update;
pub mod ending;
pub mod equivalence;
pub mod execution;
pub mod execution_resources;
pub mod fallback;
pub mod finality;
pub mod history;
pub mod metrics;
pub mod model;
pub mod mv_memory;
pub mod outcome;
pub mod parallel_state;
pub mod prefix;
pub mod primitives;
pub mod progress;
pub mod read_set;
pub mod run_laws;
pub mod scheduler;
pub mod scheduler_view;
pub mod session;
pub mod soundness;
pub mod speculation;
pub mod state_laws;
pub mod table;
pub mod test_utils;
pub mod text;
pub mod transitions;
pub mod tx_dependency;
pub mod tx_set;
pub mod validation;
pub mod wait;
