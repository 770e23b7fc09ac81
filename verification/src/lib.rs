pub mod app;
pub mod paths;
pub mod runner;
pub mod store;
pub mod text;
pub mod ui;
