
pub mod events;
pub mod frame_notifier;
pub mod future;
pub mod signals;
pub mod slots;
pub mod tree;
pub mod widgets;
