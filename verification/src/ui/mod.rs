pub mod log_view;
pub mod width;
