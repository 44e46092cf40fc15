//! Verified core of a GigE Vision industrial camera library.
//!
//! Bayer pattern detection, the preparation of Bayer planes for demosaicing,
//! frame conversion to RGB24, IPv4 address text conversion, pixel-format
//! selection and the retry decisions of acquisition stand here with their
//! contracts.

pub mod camera;
pub mod demosaic;
pub mod discovery;
pub mod error;
pub mod frame;
pub mod multi_camera;
pub mod text;

pub use demosaic::BayerPattern;
pub use discovery::{get_all_camera_ids, ip_str_to_u32, u32_to_ip_str, CameraInfo};
pub use error::{CameraError, Result};
pub use frame::Frame;
