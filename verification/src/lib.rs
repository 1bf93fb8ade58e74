//! Verified building blocks for two small language facilities: dispatching
//! through callable handles passed as values, and closed tag sets whose
//! variants carry integer discriminants or payloads.

pub mod dispatch;
pub mod labels;
pub mod tags;

pub use dispatch::ascending;
pub use dispatch::calculator;
pub use dispatch::descending;
pub use dispatch::sorter;
pub use dispatch::sub;
pub use dispatch::sum;
