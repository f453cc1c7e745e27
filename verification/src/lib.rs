//! A prompt cache that is simulated in front of a model that has none, and the settings of the
//! proxy that it is part of.
//!
//! A request is cut into segments: its tools, its system messages and the blocks of its messages.
//! Each prefix of the segments has a hash and a number of tokens ([`path`]). The prefixes that the
//! request marks, and that hold enough tokens, are the breakpoints of its plan ([`plan`]). A
//! lookup searches back from each breakpoint for a prefix that the cache still holds, says how
//! many tokens would have been read from the cache and how many written to it, and leaves the
//! breakpoints in the cache ([`lookup`], [`simulator`]). What it says goes into the usage of the
//! response ([`usage`]).
//!
//! The settings come from a file, from defaults and from environment variables ([`config`],
//! [`env`]).

pub mod text;
pub mod text_laws;
pub mod json;
pub mod json_laws;
pub mod serde_values;
pub mod tokens;
pub mod token_laws;
pub mod headers;
pub mod header_laws;
pub mod cch;
pub mod cch_laws;
pub mod usage;
pub mod usage_laws;
pub mod request;
pub mod request_laws;
pub mod control_laws;
pub mod extension_laws;
pub mod segment_laws;
pub mod path;
pub mod plan;
pub mod plan_laws;
pub mod path_laws;
pub mod store;
pub mod lookup;
pub mod lookup_laws;
pub mod read_laws;
pub mod simulator;
pub mod env;
pub mod config;
pub mod config_laws;
pub mod setting_laws;
