//! Frame protocol, BMP processing and configuration logic of the Keyence suite.
pub mod bytes;
pub mod protocol;
pub mod text;
pub mod canvas;
pub mod draw;
pub mod bmp;
pub mod viewer;
pub mod filename;
pub mod sender;
