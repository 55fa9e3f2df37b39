//! Element control protocol: a compact wire codec for batches of LED
//! element updates, a palette, and a compositor that folds updates into
//! rendered frames.

pub mod codec;
pub mod controller;
pub mod color;
pub mod msg;
pub mod transport;

pub use color::Color;
pub use color::ColorMap;
pub use controller::Controller;
pub use controller::MemController;
pub use controller::Renderer;
pub use msg::Command;
pub use msg::Error;
pub use msg::LedMsg;
pub use transport::channel;
pub use transport::LocalReceiver;
pub use transport::LocalSender;
pub use transport::Receiver;
pub use transport::Sender;
pub use transport::TryIter;
