//! Readings of a Linux machine's sensors: what the kernel's text files and
//! the firmware's tables say, which rules turn them into readings, and how
//! the readings are laid out in a log or on a screen.
pub mod battery;
pub mod cli;
pub mod clock;
pub mod cpu;
pub mod double;
pub mod dump;
pub mod files;
pub mod firmware;
pub mod gpu;
pub mod history;
pub mod hwmon;
pub mod laws;
pub mod lists;
pub mod logger;
pub mod memory;
pub mod model;
pub mod msr;
pub mod numbers;
pub mod order;
pub mod output;
pub mod pm_table;
pub mod probe;
pub mod psi;
pub mod rapl;
pub mod scaling;
pub mod screen;
pub mod sensors;
pub mod smn;
pub mod smu;
pub mod smuctl;
pub mod style;
pub mod table;
pub mod text;
pub mod traffic;
pub mod tui;
