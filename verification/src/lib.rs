//! Build matrix orchestration: expansion of a declarative settings schema
//! into concrete build combinations, generation of a preprocessor
//! configuration header per combination, deterministic naming of the
//! per-combination artifacts, and the state machines that supervise the
//! external build subprocess and the termination of its process tree.

pub mod build_combinations;
pub mod builder;
pub mod cancel;
pub mod build_config_gen;
pub mod config;
pub mod logging;
pub mod models;
pub mod naming;
pub mod process;
pub mod strnum;
pub mod utils;
