//! Verified core of an Intel Xe GPU and NPU monitor.
pub mod text;
pub mod collectors;
pub mod history;
pub mod model;
pub mod format;
pub mod ui;
pub mod app;
