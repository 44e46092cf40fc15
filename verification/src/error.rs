//! The library's error type.

use vstd::prelude::*;

verus! {

/// Errors of camera operations and image conversion.
#[derive(Debug)]
pub enum CameraError {
    /// No camera was found.
    NoCameraFound,
    /// The camera is not open.
    DeviceNotOpen,
    /// Frame acquisition timed out.
    Timeout,
    /// The pixel format is not supported.
    UnsupportedPixelFormat(String),
    /// The buffer holds no valid image data.
    InvalidBuffer,
    /// The connection to the camera was lost.
    ConnectionLost(String),
    /// Reconnecting failed after the given number of attempts.
    ReconnectFailed(usize),
    /// Acquisition timed out after the given number of seconds.
    AcquisitionTimeout(u64),
    /// A camera driver error that carries a message.
    AravisError(String),
    /// Any other error (image processing, data validation).
    GenericError(String),
}

/// Result of camera operations.
pub type Result<T> = core::result::Result<T, CameraError>;

} // verus!
