//! What holds across functions: of texts, of the rewriting of a script, of
//! the output of an instrumented script, of a session, of a review and of what
//! is shown of it.

pub mod display;
pub mod report;
pub mod review;
pub mod rewrite;
pub mod session;
pub mod text;
