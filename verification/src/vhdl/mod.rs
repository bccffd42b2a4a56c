//! The VHDL intermediate representation of a register-transfer program, the
//! rules that turn it into VHDL text, and its generation from the program
//! that the compiler hands over (`mir`): declarations, expressions and
//! operations (`from_mir`), the states of each statement (`statement`), and
//! the whole program (`builder`), with what holds of every generated program
//! (`splice`, `refs`, `op_order`).

pub mod error;
pub mod ir;
pub mod render;
pub mod render_expr;
pub mod render_laws;
pub mod sensitivity;
pub mod deps;
pub mod generate;
pub mod template;
pub mod logic;
pub mod mir;
pub mod from_mir;
pub mod view;
pub mod builder;
pub mod statement;
pub mod next_state;
pub mod splice;
pub mod refs;
pub mod op_order;
