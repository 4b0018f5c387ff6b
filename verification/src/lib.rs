pub mod app;
pub mod event;
pub mod git;
pub mod text;
pub mod ui;
