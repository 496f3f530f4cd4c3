//! Remote-framebuffer client engine: geometry, the mirrored pixel surface,
//! the session state machine and the small text instruction codec.

pub mod types;
pub mod surface;
pub mod guac;
pub mod image;
pub mod session;
pub mod dispatch;
