//! A calculator's core: an expression parser, number-base conversions, the
//! colour theme read from the settings file, and the state machine behind the
//! interactive screen.
pub mod text;
pub mod expr;
pub mod radix;
pub mod theme;
pub mod app;
pub mod cli;
pub mod expr_laws;
pub mod app_laws;
