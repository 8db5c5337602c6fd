//! Core of a split, layered keyboard: debounced matrix scanning, layer
//! resolution over a status grid, the inter-half link frame, and report
//! assembly.
pub mod codes;
pub mod debounce;
pub mod link;
pub mod matrix;
pub mod report;
pub mod grid;
pub mod dispatch;
