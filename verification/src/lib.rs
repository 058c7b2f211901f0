//! N-dimensional data comparison spaces: sparse coordinate systems with any number of
//! named dimensions, whose cells hold values or typed links to data anywhere on the
//! mesh.
//!
//! - `space` is the model: cells, dimensions, rules, and stamped ops that converge.
//! - `proto` routes requests onto it; `materialize` plans derivations; `service`
//!   decides, step by step, what an instance does for a request; `cli` reads the
//!   command line.
//! - `origin`, `sorted_map`, `text`, `json`, `encode` and `digest` are what these are
//!   built on.
//! - `answers`, `effects`, `planning`, `inquiry` and `commands` state and prove what each
//!   operation does, told by the data alone; `formats` how things are spelled, and
//!   `standing` what values stand for.
//! - `addressing`, `convergence`, `memo`, `reading`, `rerun`, `serving` and `spelling`
//!   state and prove what holds of them together.

pub mod addressing;
pub mod answers;
pub mod cli;
pub mod commands;
pub mod convergence;
pub mod digest;
pub mod effects;
pub mod encode;
pub mod formats;
pub mod inquiry;
pub mod json;
pub mod materialize;
pub mod memo;
pub mod origin;
pub mod planning;
pub mod proto;
pub mod reading;
pub mod rerun;
pub mod service;
pub mod serving;
pub mod sorted_map;
pub mod space;
pub mod spelling;
pub mod standing;
pub mod text;
