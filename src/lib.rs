//! Usage analytics for the line-delimited request logs of a coding
//! assistant: record extraction, de-duplication, pricing and roll-ups.

pub mod text;
pub mod pricing;
pub mod models;
pub mod amount;
pub mod clock;
pub mod json;
pub mod sorting;
pub mod processor;
pub mod grouping;
pub mod paths;
pub mod aggregator;
pub mod laws;
pub mod formatting;
pub mod settings;
