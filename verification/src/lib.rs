//! Core of the RODECaster virtual audio device.

pub mod alsa_bridge;
pub mod audio_format;
pub mod channel_map;
pub mod config;
pub mod drift;
pub mod float_bits;
pub mod mixer;
pub mod ring_buffer;
pub mod text;
pub mod usb_bridge;
pub mod usb_descriptor;
