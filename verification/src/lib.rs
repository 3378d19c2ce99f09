//! Ferrite: an Android tablet as an external display and pen tablet for a Linux host.

pub mod bytes;
pub mod message;
pub mod wire;
pub mod frame;
pub mod annexb;
pub mod pixels;
pub mod capture;
pub mod edid;
pub mod evdi;
pub mod text;
pub mod touch;
pub mod pen;
pub mod input;
pub mod idle;
pub mod qr;
pub mod aoa;
pub mod echo;
pub mod transfer;
pub mod session;
pub mod encoder;
pub mod client;
pub mod cosmic;
pub mod drm;
pub mod paths;
pub mod panel;
pub mod tray;
