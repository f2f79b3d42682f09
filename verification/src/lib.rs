//! Decoding of CAN frames against a DBC database, with the configuration,
//! error-code mapping and WebSocket client handling around it.
pub mod signal;
pub mod frame;
pub mod websocket;
pub mod text;
pub mod error_map;
pub mod dbc;
pub mod config;
pub mod dbc_names;
