pub mod socket;
pub mod process;
pub mod terminate;
pub mod commands;
mod os;
pub mod procfs;
