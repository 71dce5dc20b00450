//! What the library promises of whole texts, tables and runs: each statement
//! builds its input, and says what comes of it in numbers and words of its own.
pub mod battery;
pub mod control;
pub mod decimals;
pub mod double;
pub mod energy;
pub mod firmware;
pub mod graphics;
pub mod interface;
pub mod panels;
pub mod processors;
pub mod records;
pub mod sensors;
pub mod snapshot;
pub mod system;
pub mod table;
pub mod text;
pub mod traffic;
pub mod units;
