//! Verified core logic of an Aleo node and its program data formats.
#![allow(unused_imports)]

pub mod bits;
pub mod checkpoint;
pub mod decimal;
pub mod deployment;
pub mod dynamic;
pub mod error;
pub mod field;
pub mod future;
pub mod handshake;
pub mod heartbeat;
pub mod finalize_type;
pub mod identifier_literal;
pub mod ids;
pub mod limbs;
pub mod node_config;
pub mod literal_type;
pub mod peering;
pub mod plaintext_type;
pub mod program_names;
pub mod register_type;
pub mod testchain;
pub mod text;
pub mod transition;
pub mod transition_leaf;
pub mod varuna;
