//! Framing of Cap'n Proto messages over ZeroMQ multipart messages, and the
//! logic of the `zmq-explorers` pipeline (image sampling, diagnostics and the
//! PPM image format) that runs on top of it.

pub mod framing;
pub mod decimal;
pub mod ppm;
pub mod chance;
pub mod explorer;
pub mod viewer;
