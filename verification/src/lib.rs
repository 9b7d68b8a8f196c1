//! The command logic of a small kernel shell: a bounded byte-string
//! buffer, argument splitting, a pointer-free directory list, the
//! console cursor and palette rules, and the key-by-key shell state machine.

pub mod action;
pub mod rstr;
pub mod fs;
pub mod console;
pub mod shell;
