//! A fingerprint engine for a network scanner: boolean rules over the fields
//! of an HTTP banner, their database, port lists, and the scanner's command
//! line data.
pub mod bullet;
pub mod command;
pub mod common;
pub mod fingerprint;
pub mod global;
pub mod launch;
pub mod models;
pub mod parser;
pub mod pattern;
pub mod text;
