pub mod cli;
pub mod commands;
pub mod daemon;
pub mod data;
pub mod paths;
pub mod procs;
pub mod socket;
pub mod text;
pub mod util;
