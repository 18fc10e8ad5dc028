//! A registry of interpreter toolchains: version keys, interpreter
//! introspection records, merged listings and the decisions behind the
//! register, list and remove commands.

pub mod commands;
pub mod failure;
pub mod flow;
pub mod inspect;
pub mod key_order;
pub mod listing;
pub mod record;
pub mod text;
pub mod version_key;
pub mod world;
