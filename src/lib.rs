pub mod command;
pub mod exit_code;
pub mod parser;
pub mod session;
pub mod text;
