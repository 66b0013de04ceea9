//! A keyboard window switcher: which windows it offers, how their icons are
//! decoded and laid out, and how the selection moves.

pub mod icons;
pub mod ui;
pub mod switcher;
pub mod window;
pub mod search;
pub mod log;
