//! An integer type that approximates its value as `coefficient * 10^ten_power`,
//! with nine digits of precision, saturating arithmetic, and decimal,
//! scientific and word-based renderings.
pub mod math;
pub mod approximint;
pub mod digits;
pub mod scientific;
pub mod decimal;
pub mod words;

pub use approximint::{Approximate, Approximint};
pub use decimal::DecimalFormatter;
pub use scientific::ScientificFormatter;
pub use words::WordFormatter;
