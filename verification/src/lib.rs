//! A small post-feed front end, taken apart into three verified pieces:
//! a store that applies events to the application state, a renderer that
//! derives a view tree from that state, and a codec for the JSON wire
//! form of the post list.

pub mod codec;
pub mod num;
pub mod render;
pub mod store;
