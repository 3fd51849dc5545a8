//! Assembles SQL statements from the lines of a script and decides, statement
//! by statement, how a batch run goes on.

pub mod text;
pub mod assembler;
pub mod driver;
