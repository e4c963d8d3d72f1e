//! Wire-format schemas for message bus records: signatures, tuple conversions,
//! pack and unpack, and the display-mode model built on them.
pub mod wire;
pub mod schema;
pub mod signature;
pub mod codec;
pub mod enum_codec;
pub mod convert;
pub mod display_config;
pub mod mode_db;
pub mod output;
pub mod resolution;
pub mod classify;
pub mod cli;
pub mod projection;
