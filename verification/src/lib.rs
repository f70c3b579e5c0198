pub mod text;
pub mod winpath;
pub mod classify;
pub mod shell;
pub mod order;
pub mod cleaner;
pub mod scanner;
pub mod commands;
pub mod uninstall;
pub mod thumbs;
pub mod dupes;
pub mod recommendations;
pub mod apps;
