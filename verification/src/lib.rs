//! Tagging, search and moderation logic of a GIF library server.

pub mod text;
pub mod tags;
pub mod search;
pub mod placeholder;
pub mod slug;
pub mod limits;
pub mod media;
pub mod listing;
pub mod page;
pub mod submit;
pub mod store;
pub mod gallery;
