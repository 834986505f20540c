pub mod ast;
pub mod diagnostics;
pub mod rules;
pub mod visit;
