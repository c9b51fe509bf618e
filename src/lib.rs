//! Decision logic of a preload library that lets a debugging client reach a USB
//! device through one already-open descriptor: a synthetic directory tree over the
//! device path, the decisions of the `opendir`, `readdir`, `closedir`, `open` and
//! `close` hooks, the symbol-resolution strategy, and the paths that lead to the
//! device's serial number.

pub mod paths;
pub mod dir_index;
pub mod dir_handle;
pub mod device;
pub mod control;
pub mod usb_identity;
pub mod symbols;
