pub mod action;
pub mod backend;
pub mod config;
pub mod scanner;
pub mod system;
pub mod text;
pub mod ui;
