//! Core of a pen-plotter controller: translates motion scripts into
//! firmware instructions, enumerates serial endpoints, and drives the
//! tool head over a serial link while tracking its logical state.

pub mod cncmachine;
pub mod errors;
pub mod gcode;
pub mod ports;
pub mod text;

pub use cncmachine::CNCMachine;
pub use errors::CoreError;
pub use gcode::GCodeLoader;
pub use ports::ConnectionEndpoint;
pub use ports::EndpointKind;
