pub mod channel;
pub mod events;
pub mod laws;
pub mod render;
pub mod stats;
