//! Decisions of the cadence daemon and board, each stated and proved.
pub mod text;
pub mod text_laws;
pub mod error;
pub mod peer;
pub mod peer_laws;
pub mod operator_auth;
pub mod hash;
pub mod paths;
pub mod needs_dismiss;
pub mod order;
pub mod json;
pub mod dict;
pub mod master_perm;
pub mod mcp;
pub mod memory;
pub mod model_defaults;
pub mod pi_policy;
pub mod platform;
pub mod show_laws;
pub mod side_laws;
pub mod overview;
pub mod time;
pub mod time_laws;
