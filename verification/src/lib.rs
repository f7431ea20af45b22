//! Rendering and protocol core for small Bluetooth thermal printers.
//!
//! Everything here is a function of its arguments: no file, socket, clock or
//! font is ever opened. What a surface has to fetch or draw (images, glyphs,
//! pattern bands) is handed in as plain values, and what it has to do (send a
//! frame, wait, fetch a URL) comes back as a value.

pub mod barcode;
pub mod bitmap;
pub mod directives;
pub mod documents;
pub mod elements;
pub mod events;
pub mod faces;
pub mod fences;
pub mod glyphs;
pub mod images;
pub mod job;
pub mod joins;
pub mod layout;
pub mod lowering;
pub mod markdown;
pub mod md_images;
pub mod packets;
pub mod qr;
pub mod rich;
pub mod server;
pub mod table;
pub mod text;
pub mod wagara;
