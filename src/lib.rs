//! An in-memory store of bulletin-board posts: create, read, list, update and
//! delete, with ids that are never reused and changes reserved to each
//! post's author.

pub mod caller;
pub mod laws;
pub mod post;
pub mod store;

pub use caller::Caller;
pub use post::{Category, Post, PostView};
pub use store::{BulletinBoardState, StoreError, StoreView};
