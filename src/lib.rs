//! Integer color conversions between RGB and HWB (hue, whiteness, blackness),
//! a pixel buffer for painting swatches, and the palette grids built on them.
pub mod color;
pub mod fixed;
pub mod palette;
pub mod pixels;

pub use color::RGB;
pub use fixed::{gray, hue_to_rgb, hwb_to_rgb, mix, rgb, rgb_to_hue, rgb_to_hwb, Hwb, RgbBytes};
pub use palette::{hue_palette, palette, palette_grid};
pub use pixels::{ImageError, Pixels};
