//! Weights: where they are, where they go, and how they get there.

pub mod buffer_laws;
pub mod convert;
pub mod domain_laws;
pub mod error;
pub mod fill_laws;
pub mod framing;
pub mod index_files;
pub mod index_laws;
pub mod index_wire;
pub mod load_laws;
pub mod message_laws;
pub mod name_map;
pub mod order;
pub mod path;
pub mod path_laws;
pub mod run;
pub mod shards;
pub mod tensor;
pub mod tensor_index;
pub mod text;
pub mod text_laws;
pub mod transfer;
pub mod weight_loader;
