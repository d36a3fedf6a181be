//! What registering the `ush://` scheme with each desktop platform computes.

pub mod linux;
pub mod macos;
pub mod unsupported;
pub mod windows;
