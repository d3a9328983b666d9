//! Detection post-processing and moderation decisions for an image-checking
//! chat bot: decoding of raw detector output, non-maximum suppression,
//! overlay compositing, and per-user escalation state.

pub mod codec;
pub mod composite;
pub mod dispatch;
pub mod enforcement;
pub mod geometry;
pub mod moderation;
pub mod nms;
