//! Verified core of a converter from pixel-art editor documents (Pixaki v2/v3,
//! Pixel Studio Pro v2) to layered animation documents.

pub mod text;
pub mod canvas;
pub mod pixaki;
pub mod pixel_studio_pro_v2;
pub mod pixels;
pub mod timelapse;
pub mod formats;
