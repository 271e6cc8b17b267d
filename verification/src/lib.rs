//! Display handling for a keyboard's nice!view screen: a packed frame buffer with
//! its wire format, a virtual display, bitmap icons, a small glyph table, the XBM
//! image parser behind the icon generator, and the pure parts of the battery and
//! Bluetooth demos.

pub mod color;
pub mod display;
pub mod nice_view;
pub mod virtual_display;
pub mod image;
pub mod text_db;
pub mod icons;
pub mod typography;
pub mod text_parse;
pub mod xbm;
pub mod image_modules;
pub mod battery;
pub mod hid;
pub mod ble;
pub mod rng;

pub use color::Color;
pub use display::KeyboardDisplay;
pub use icons::Icon;
pub use image::{Image, ImageIterator};
pub use typography::{TextDisplayer, TextVariant};
