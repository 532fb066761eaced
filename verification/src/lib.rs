pub mod ask;
pub mod config;
pub mod dir_state;
pub mod file_filter;
pub mod sync;
pub mod util;
pub mod watch;
