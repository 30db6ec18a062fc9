//! Core control plane of a wallpaper daemon: the binary request/response wire
//! codec, the per-output wallpaper actor registry with its routing rules, the
//! frame-buffer arena with buffer-release synchronization, the worker model
//! with cooperative animation cancellation, and the reactor's decision logic.
//!
//! All I/O (sockets, signals, the compositor binding, GPU setup) lives outside
//! this crate; the functions here work on plain values and are verified.

pub mod types;
pub mod shutdown;
pub mod codec;
pub mod arena;
pub mod wallpaper;
pub mod daemon;
pub mod engine;
pub mod reactor;
