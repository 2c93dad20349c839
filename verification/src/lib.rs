//! Sharding the weights of a large language model over the GPUs of several ranks: an index of the
//! tensors in its weight files, buffers for each rank's part of them, the copies that fill these
//! buffers, and the layout and order of execution of a DeepSeek model built on them.
//!
//! The library works on plain values and on candle's tensors. Files, devices and the link between
//! the ranks are for the program around it.

pub mod models;
pub mod utils;

use vstd::prelude::*;

verus! {

} // verus!
