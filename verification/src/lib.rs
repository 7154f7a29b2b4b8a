//! Interactive sed: a script is run over a whole input, its effect is shown
//! cycle by cycle, and each change is kept or dropped on its own.

pub mod command;
pub mod display;
pub mod error;
pub mod instrument;
pub mod laws;
pub mod review;
pub mod runner;
pub mod script;
pub mod session;
pub mod state;
pub mod text;
