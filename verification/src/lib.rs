/// Calendar arithmetic: the proleptic Gregorian rules and the conversion
/// between epoch seconds and calendar fields.
pub mod calendar;
/// The system clocks: the current instant, the reported uptime, and the
/// local-time readout, each behind a stated boundary.
pub mod clock;
/// The persisted-reset record: rendering an instant as a fixed-offset
/// timestamp and reading one back, with the round-trip proof.
pub mod codec;
/// The failure taxonomy of an invocation.
pub mod errors;
/// An absolute point in time with nanosecond precision.
pub mod instant;
/// Rendering an elapsed span as human or machine text, and the start line.
pub mod render;
/// The precedence rule between boot instant and persisted reset, and the
/// reset outcome.
pub mod resolve;
/// The live-refresh loop as a state machine with a proved termination law.
pub mod watch;
