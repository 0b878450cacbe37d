//! Compact, human-readable rendering of an elapsed time given as whole
//! seconds plus a sub-second nanosecond remainder, in the style of
//! "72h3m0.5s": hours are the largest unit, leading zero units are omitted,
//! trailing zero fraction digits are trimmed, and durations under one second
//! fall back to milli-, micro- or nanoseconds so that the leading digit is
//! non-zero. The zero duration renders as "0s".

pub mod laws;
pub mod model;
pub mod render;

pub use render::Duration;
pub use render::fmt_frac;
pub use render::fmt_int;
pub use render::to_string;
