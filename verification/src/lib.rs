//! CodexGauge — a floating OS-tray widget that shows realtime Codex quota.
//!
//! This library holds everything that the widget decides and computes:
//!
//! - [`quota`] and [`percent`]: the quota data model and its percentages, with
//!   [`double`] for the floating-point arithmetic behind them;
//! - [`json`], [`protocol`] and [`appserver`]: the messages exchanged with
//!   `codex app-server --stdio`, and the quota that they describe;
//! - [`session`] and [`session_laws`]: the machine that drives a fetch, and what
//!   holds of every fetch;
//! - [`overlay`], [`tray`] and [`control`]: what is drawn, what clicks do, and
//!   when to refresh, retry and quit;
//! - [`percent_laws`], [`quota_laws`], [`protocol_laws`], [`overlay_laws`] and
//!   [`control_laws`]: what all of these are for, said of what goes in and what
//!   comes out;
//! - [`text`], [`text_laws`] and [`codes`]: numerals, white space, encodings and
//!   message numbers.
//!
//! Windows, pipes, processes and clocks are left to the program around it.

pub mod appserver;
pub mod codes;
pub mod control;
pub mod control_laws;
pub mod double;
pub mod json;
pub mod overlay;
pub mod overlay_laws;
pub mod percent;
pub mod percent_laws;
pub mod protocol;
pub mod protocol_laws;
pub mod quota;
pub mod quota_laws;
pub mod session;
pub mod session_laws;
pub mod text;
pub mod text_laws;
pub mod tray;
