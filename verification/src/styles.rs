//! The styles part and the styles that it holds.

pub mod latent_style;
pub mod style;
pub mod styles;

pub use self::latent_style::LatentStyle;
pub use self::style::{Style, StyleName, StyleType};
pub use self::styles::{LatentStyles, Styles};
