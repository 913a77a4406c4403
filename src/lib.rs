//! A clock adjustment engine: offsets and timestamps with exact arithmetic,
//! validated adjustment policies, and the scheduler that decides, tick by
//! tick, which offset to apply to the system clock and when to pause.
pub mod offset;
pub mod policy;
pub mod scheduler;

pub use offset::{ClockCall, ClockError, ClockOffset, Timestamp};
pub use policy::{advance_ramp, fits_duration, parse_offset, ConfigError, Policy};
pub use scheduler::{Command, Phase, Scheduler};
