//! Verified core of a NanoVNA sweep recorder: the serial shell protocol that
//! drives a sweep, the parsing of the analyser's replies, the selection of
//! devices, and the rules of the recorder's settings form and terminal log.

pub mod digits;
pub mod plot;
pub mod ports;
pub mod protocol;
pub mod run_plan;
pub mod schedule;
pub mod settings;
pub mod sweep_text;
pub mod terminal;
pub mod text;

pub use ports::detect_nanovna_port_names;
pub use run_plan::RunConfig;
