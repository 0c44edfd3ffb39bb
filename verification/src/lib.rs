//! A push-based reactive-stream engine: sources emit a sequence of items,
//! optionally ending in an error or a completion signal, to observers that
//! are registered through composable operator stages, with explicit,
//! cascading cancellation.

pub mod error;
pub mod event;
pub mod observable;
pub mod observer;
pub mod ops;
pub mod scheduler;
pub mod subscription;
pub mod subscribable;
pub mod subscriber;
