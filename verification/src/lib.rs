//! Verified core of the Lian Li 2.4GHz wireless fan/RGB controller.

use vstd::prelude::*;

pub mod acquisition;
pub mod cli;
pub mod config;
pub mod consts;
pub mod device_kind;
pub mod dongle;
pub mod effects;
pub mod effects_bridge;
pub mod fan;
pub mod frames;
pub mod hex;
pub mod io;
pub mod ipc;
pub mod migrate;
pub mod observation;
pub mod record;
pub mod reliability;
pub mod rgb_assert;
pub mod supervisor;

verus! {

} // verus!
