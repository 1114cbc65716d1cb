//! A small symbolic-expression engine over integers.
//!
//! A line of text is read as tokens (`lexer`), brought from infix into
//! postfix order (`shunting_yard`), built into an expression tree
//! (`symengine`) and then evaluated (`symexpr`), simplified (`simplify`)
//! or differentiated (`derivative`). An [`symengine::Engine`] keeps the
//! named variables and expressions that lines refer to; `bindings` says
//! what it holds and what a line does to it. `cli` answers the lines of a
//! session.

pub mod error;
pub mod numeric;
pub mod token;
pub mod lexer;
pub mod shunting_yard;
pub mod symexpr;
pub mod simplify;
pub mod derivative;
pub mod bindings;
pub mod symengine;
pub mod cli;
