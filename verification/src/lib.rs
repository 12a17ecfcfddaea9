pub mod bwrap;
pub mod bytes;
pub mod cli;
pub mod command;
pub mod decimal;
pub mod mounts;
pub mod path;
