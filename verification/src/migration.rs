//! Typed migration from the classic IR to version 4, and what it reports.

pub mod classic_to_v4;
pub mod diagnostic;
