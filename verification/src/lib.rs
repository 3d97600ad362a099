use vstd::prelude::*;

pub mod account;
pub mod calendar;
pub mod chat;
pub mod commands;
pub mod design;
pub mod diagnostics;
pub mod directory;
pub mod discovery;
pub mod drawer;
pub mod error;
pub mod live;
pub mod markdown;
pub mod media;
pub mod media_cache;
pub mod media_memory;
pub mod mock;
pub mod model;
pub mod notifications;
pub mod profile;
pub mod secrets;
pub mod session;
pub mod store;
pub mod sync;
pub mod text;
pub mod timeline;
pub mod toasts;
pub mod uiaa;
pub mod verification;

verus! {

} // verus!
