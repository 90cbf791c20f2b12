pub mod frame_visitor;
pub mod static_frame;
pub mod timed_frame;
