//! Ownership and callback core for driving a native, handle-based GUI toolkit.
//!
//! The toolkit itself is never called from here. Every operation checks the
//! bookkeeping, updates it, and hands back the native call that the caller has
//! to perform on the UI thread.

pub mod kind;
pub mod error;
pub mod native;
pub mod wrapper;
pub mod records;
pub mod ownership;
pub mod callbacks;
pub mod lifecycle;
pub mod control;
pub mod progressbar;
pub mod laws;
