//! Radio-control signal bridge: decodes a streamed SBUS byte sequence into
//! channel frames, and schedules a CPPM pulse train from decoded channels.
pub mod chan;
pub mod cppm;
pub mod sbus;
