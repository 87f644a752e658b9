use vstd::prelude::*;

pub mod text;
pub mod utils;
pub mod cloud;
pub mod dataflow;
pub mod update;
pub mod config;
pub mod serial;
pub mod monitor;

verus! {
}
