//! Entropy harvesting core.

pub mod binary64;
pub mod bytes;
pub mod clock;
pub mod config;
pub mod crypto;
pub mod engine;
pub mod entropy;
pub mod harvesters;
pub mod hexcode;
pub mod order;
pub mod text;
pub mod ui;
pub mod vault;
