//! What the library promises, told by what its functions are given and what they
//! hand back.

pub mod control;
pub mod isolation;
pub mod keeping;
pub mod limits;
pub mod protocol;
pub mod settings;
pub mod table;
pub mod texts;
pub mod watch;
