//! Host-side logic for NEJE laser engravers (KZ 3000 family): the serial
//! packet protocol, the 1-bit raster encoding of images, the framing of the
//! byte stream that the device sends back, and the device state that those
//! replies drive.

pub mod protocol;
pub mod raster;
pub mod device;
pub mod framing;
pub mod panel;
pub mod job;
