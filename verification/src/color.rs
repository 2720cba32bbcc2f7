//! The color value and the algorithms on it.

pub mod blend;
pub mod composite;
pub mod hsl;
pub mod hsl_round_trip;
pub mod interp;
pub mod linear;
pub mod model;
pub mod oklab;
pub mod oklch;
pub mod parse;
pub mod rgb_function;
pub mod transfer;

pub use model::BlendMode;
pub use model::Color;
pub use parse::parse_color;
pub use parse::ColorParseError;
