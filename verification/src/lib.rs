use vstd::prelude::*;

pub mod text;
pub mod arith;
pub mod pbs;
pub mod logs;
pub mod qlload;
pub mod app;
pub mod qarray;
pub mod ui;
pub mod poller;
pub mod details;
pub mod ssh;
pub mod keys;

verus! {
} // verus!
