//! Colour conversion between sRGB hex strings and the HSLuv / HPLuv spaces.
//!
//! The verified part of the library is what the conversions need beyond
//! double-precision arithmetic: the hex codec (reading `#rrggbb` text into
//! three bytes, writing bytes back as lowercase hex, and the rule that turns a
//! channel, in thousandths, into a byte), and the choice of the nearest wall
//! of the sRGB gamut among candidate distances.
pub mod gamut;
pub mod hex;
