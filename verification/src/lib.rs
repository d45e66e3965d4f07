pub mod codec;
pub mod command;
pub mod frame;
pub mod store;

pub use frame::FrameModel;
pub use frame::Value;
