//! Budgy: the bookkeeping core of a personal budgeting tool.
//!
//! A bank statement is summarised per parent category, joined with the
//! budget and with the previous period's summary, and the running balance of
//! each category is carried forward.

mod tabs;
pub mod text;
pub mod records;
pub mod statement;
pub mod summary;
pub mod budget;
pub mod config;
pub mod budgy;
pub mod bmp;
pub mod icon;

pub use tabs::Tabs;
