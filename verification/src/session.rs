//! Terminal sessions: the replay buffer and how attached viewports decide the size.
pub mod buffer;
pub mod size;
pub mod spawn;
pub mod manager;
pub mod screen;
