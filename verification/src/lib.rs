//! An event-driven netlist interpreter.
//!
//! The crate loads a compact little-endian binary description of a directed
//! graph of small stateful cells, wires them together, and routes discrete
//! integer-valued events through the graph in response to stimuli from
//! hardware pins or software addresses.

pub mod cells;
pub mod engine;
pub mod parse;
pub mod reader;
pub mod system;
