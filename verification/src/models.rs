//! A DeepSeek model: how it is put together, and how it is run.

pub mod causal_lm;
pub mod config;
pub mod deepseek3;
pub mod domain_laws;
pub mod forward;
pub mod layer_forward;
pub mod layout_laws;
pub mod run_laws;
