//! The layered animation document that every input format is converted to:
//! layers, frames, images, and cels that place an image on a layer in a frame.

use vstd::prelude::*;
use crate::text::str_equal;

verus! {

/// How a layer is composited onto the layers below it.
#[derive(Clone, Copy, Debug, PartialEq, Eq, Structural)]
pub enum BlendMode {
    Normal,
    Multiply,
    Screen,
    Overlay,
    Darken,
    Lighten,
    ColorDodge,
    ColorBurn,
    HardLight,
    SoftLight,
    Difference,
    Exclusion,
    Hue,
    Saturation,
    Color,
    Luminosity,
}

/// The blend mode that a CSS-like blend-mode name denotes; names that are not
/// recognised denote `Normal`.
pub open spec fn blend_mode_named(name: Seq<char>) -> BlendMode {
    if name == "normal"@ {
        BlendMode::Normal
    } else if name == "multiply"@ {
        BlendMode::Multiply
    } else if name == "screen"@ {
        BlendMode::Screen
    } else if name == "overlay"@ {
        BlendMode::Overlay
    } else if name == "darken"@ {
        BlendMode::Darken
    } else if name == "lighten"@ {
        BlendMode::Lighten
    } else if name == "colorDodge"@ {
        BlendMode::ColorDodge
    } else if name == "colorBurn"@ {
        BlendMode::ColorBurn
    } else if name == "hardLight"@ {
        BlendMode::HardLight
    } else if name == "softLight"@ {
        BlendMode::SoftLight
    } else if name == "difference"@ {
        BlendMode::Difference
    } else if name == "exclusion"@ {
        BlendMode::Exclusion
    } else if name == "hue"@ {
        BlendMode::Hue
    } else if name == "saturation"@ {
        BlendMode::Saturation
    } else if name == "color"@ {
        BlendMode::Color
    } else if name == "luminosity"@ {
        BlendMode::Luminosity
    } else {
        BlendMode::Normal
    }
}

/// Maps a CSS-like blend-mode name (as Pixaki writes it) to a blend mode;
/// any name that is not recognised maps to `Normal`.
pub fn map_blend_mode(s: &str) -> (m: BlendMode)
    ensures
        m == blend_mode_named(s@),
{
    if str_equal(s, "normal") {
        BlendMode::Normal
    } else if str_equal(s, "multiply") {
        BlendMode::Multiply
    } else if str_equal(s, "screen") {
        BlendMode::Screen
    } else if str_equal(s, "overlay") {
        BlendMode::Overlay
    } else if str_equal(s, "darken") {
        BlendMode::Darken
    } else if str_equal(s, "lighten") {
        BlendMode::Lighten
    } else if str_equal(s, "colorDodge") {
        BlendMode::ColorDodge
    } else if str_equal(s, "colorBurn") {
        BlendMode::ColorBurn
    } else if str_equal(s, "hardLight") {
        BlendMode::HardLight
    } else if str_equal(s, "softLight") {
        BlendMode::SoftLight
    } else if str_equal(s, "difference") {
        BlendMode::Difference
    } else if str_equal(s, "exclusion") {
        BlendMode::Exclusion
    } else if str_equal(s, "hue") {
        BlendMode::Hue
    } else if str_equal(s, "saturation") {
        BlendMode::Saturation
    } else if str_equal(s, "color") {
        BlendMode::Color
    } else if str_equal(s, "luminosity") {
        BlendMode::Luminosity
    } else {
        BlendMode::Normal
    }
}

/// The name Pixaki gives a blend mode.
pub open spec fn blend_mode_name(m: BlendMode) -> Seq<char> {
    match m {
        BlendMode::Normal => "normal"@,
        BlendMode::Multiply => "multiply"@,
        BlendMode::Screen => "screen"@,
        BlendMode::Overlay => "overlay"@,
        BlendMode::Darken => "darken"@,
        BlendMode::Lighten => "lighten"@,
        BlendMode::ColorDodge => "colorDodge"@,
        BlendMode::ColorBurn => "colorBurn"@,
        BlendMode::HardLight => "hardLight"@,
        BlendMode::SoftLight => "softLight"@,
        BlendMode::Difference => "difference"@,
        BlendMode::Exclusion => "exclusion"@,
        BlendMode::Hue => "hue"@,
        BlendMode::Saturation => "saturation"@,
        BlendMode::Color => "color"@,
        BlendMode::Luminosity => "luminosity"@,
    }
}

/// Every blend mode's name maps back to it.
pub proof fn lemma_blend_mode_name_round_trip(m: BlendMode)
    ensures
        blend_mode_named(blend_mode_name(m)) == m,
{
    reveal_strlit("normal");
    reveal_strlit("multiply");
    reveal_strlit("screen");
    reveal_strlit("overlay");
    reveal_strlit("darken");
    reveal_strlit("lighten");
    reveal_strlit("colorDodge");
    reveal_strlit("colorBurn");
    reveal_strlit("hardLight");
    reveal_strlit("softLight");
    reveal_strlit("difference");
    reveal_strlit("exclusion");
    reveal_strlit("hue");
    reveal_strlit("saturation");
    reveal_strlit("color");
    reveal_strlit("luminosity");
    let name = blend_mode_name(m);
    // Each earlier name in the chain differs from `name` at its first
    // differing position or in length.
    match m {
        BlendMode::Normal => {
        },
        BlendMode::Multiply => {
            assert("normal"@.len() != name.len());
        },
        BlendMode::Screen => {
            assert("normal"@[0] != name[0]);
            assert("multiply"@.len() != name.len());
        },
        BlendMode::Overlay => {
            assert("normal"@.len() != name.len());
            assert("multiply"@.len() != name.len());
            assert("screen"@.len() != name.len());
        },
        BlendMode::Darken => {
            assert("normal"@[0] != name[0]);
            assert("multiply"@.len() != name.len());
            assert("screen"@[0] != name[0]);
            assert("overlay"@.len() != name.len());
        },
        BlendMode::Lighten => {
            assert("normal"@.len() != name.len());
            assert("multiply"@.len() != name.len());
            assert("screen"@.len() != name.len());
            assert("overlay"@[0] != name[0]);
            assert("darken"@.len() != name.len());
        },
        BlendMode::ColorDodge => {
            assert("normal"@.len() != name.len());
            assert("multiply"@.len() != name.len());
            assert("screen"@.len() != name.len());
            assert("overlay"@.len() != name.len());
            assert("darken"@.len() != name.len());
            assert("lighten"@.len() != name.len());
        },
        BlendMode::ColorBurn => {
            assert("normal"@.len() != name.len());
            assert("multiply"@.len() != name.len());
            assert("screen"@.len() != name.len());
            assert("overlay"@.len() != name.len());
            assert("darken"@.len() != name.len());
            assert("lighten"@.len() != name.len());
            assert("colorDodge"@.len() != name.len());
        },
        BlendMode::HardLight => {
            assert("normal"@.len() != name.len());
            assert("multiply"@.len() != name.len());
            assert("screen"@.len() != name.len());
            assert("overlay"@.len() != name.len());
            assert("darken"@.len() != name.len());
            assert("lighten"@.len() != name.len());
            assert("colorDodge"@.len() != name.len());
            assert("colorBurn"@[0] != name[0]);
        },
        BlendMode::SoftLight => {
            assert("normal"@.len() != name.len());
            assert("multiply"@.len() != name.len());
            assert("screen"@.len() != name.len());
            assert("overlay"@.len() != name.len());
            assert("darken"@.len() != name.len());
            assert("lighten"@.len() != name.len());
            assert("colorDodge"@.len() != name.len());
            assert("colorBurn"@[0] != name[0]);
            assert("hardLight"@[0] != name[0]);
        },
        BlendMode::Difference => {
            assert("normal"@.len() != name.len());
            assert("multiply"@.len() != name.len());
            assert("screen"@.len() != name.len());
            assert("overlay"@.len() != name.len());
            assert("darken"@.len() != name.len());
            assert("lighten"@.len() != name.len());
            assert("colorDodge"@[0] != name[0]);
            assert("colorBurn"@.len() != name.len());
            assert("hardLight"@.len() != name.len());
            assert("softLight"@.len() != name.len());
        },
        BlendMode::Exclusion => {
            assert("normal"@.len() != name.len());
            assert("multiply"@.len() != name.len());
            assert("screen"@.len() != name.len());
            assert("overlay"@.len() != name.len());
            assert("darken"@.len() != name.len());
            assert("lighten"@.len() != name.len());
            assert("colorDodge"@.len() != name.len());
            assert("colorBurn"@[0] != name[0]);
            assert("hardLight"@[0] != name[0]);
            assert("softLight"@[0] != name[0]);
            assert("difference"@.len() != name.len());
        },
        BlendMode::Hue => {
            assert("normal"@.len() != name.len());
            assert("multiply"@.len() != name.len());
            assert("screen"@.len() != name.len());
            assert("overlay"@.len() != name.len());
            assert("darken"@.len() != name.len());
            assert("lighten"@.len() != name.len());
            assert("colorDodge"@.len() != name.len());
            assert("colorBurn"@.len() != name.len());
            assert("hardLight"@.len() != name.len());
            assert("softLight"@.len() != name.len());
            assert("difference"@.len() != name.len());
            assert("exclusion"@.len() != name.len());
        },
        BlendMode::Saturation => {
            assert("normal"@.len() != name.len());
            assert("multiply"@.len() != name.len());
            assert("screen"@.len() != name.len());
            assert("overlay"@.len() != name.len());
            assert("darken"@.len() != name.len());
            assert("lighten"@.len() != name.len());
            assert("colorDodge"@[0] != name[0]);
            assert("colorBurn"@.len() != name.len());
            assert("hardLight"@.len() != name.len());
            assert("softLight"@.len() != name.len());
            assert("difference"@[0] != name[0]);
            assert("exclusion"@.len() != name.len());
            assert("hue"@.len() != name.len());
        },
        BlendMode::Color => {
            assert("normal"@.len() != name.len());
            assert("multiply"@.len() != name.len());
            assert("screen"@.len() != name.len());
            assert("overlay"@.len() != name.len());
            assert("darken"@.len() != name.len());
            assert("lighten"@.len() != name.len());
            assert("colorDodge"@.len() != name.len());
            assert("colorBurn"@.len() != name.len());
            assert("hardLight"@.len() != name.len());
            assert("softLight"@.len() != name.len());
            assert("difference"@.len() != name.len());
            assert("exclusion"@.len() != name.len());
            assert("hue"@.len() != name.len());
            assert("saturation"@.len() != name.len());
        },
        BlendMode::Luminosity => {
            assert("normal"@.len() != name.len());
            assert("multiply"@.len() != name.len());
            assert("screen"@.len() != name.len());
            assert("overlay"@.len() != name.len());
            assert("darken"@.len() != name.len());
            assert("lighten"@.len() != name.len());
            assert("colorDodge"@[0] != name[0]);
            assert("colorBurn"@.len() != name.len());
            assert("hardLight"@.len() != name.len());
            assert("softLight"@.len() != name.len());
            assert("difference"@[0] != name[0]);
            assert("exclusion"@.len() != name.len());
            assert("hue"@.len() != name.len());
            assert("saturation"@[0] != name[0]);
            assert("color"@.len() != name.len());
        },
    }
}

/// A drawing surface of the output document.
#[derive(Debug)]
pub struct Layer {
    pub name: String,
    /// Opacity on the 0..=255 scale.
    pub opacity: u8,
    pub visible: bool,
    pub blend_mode: BlendMode,
}

/// A point in time of the output document.
#[derive(Clone, Copy, Debug, PartialEq, Eq, Structural)]
pub struct Frame {
    pub duration_ms: u32,
}

/// Places image `image_index` on layer `layer_index` in frame `frame_index`,
/// with its top-left corner at (`x`, `y`).
#[derive(Clone, Copy, Debug, PartialEq, Eq, Structural)]
pub struct Cel {
    pub frame_index: usize,
    pub layer_index: usize,
    pub x: i16,
    pub y: i16,
    pub image_index: usize,
}

/// An RGBA image, four bytes per pixel, row by row.
#[derive(Debug)]
pub struct Image {
    pub width: u16,
    pub height: u16,
    pub rgba: Vec<u8>,
}

/// A layered animation document.
#[derive(Debug)]
pub struct Document {
    pub width: u16,
    pub height: u16,
    pub layers: Vec<Layer>,
    pub frames: Vec<Frame>,
    pub cels: Vec<Cel>,
    pub images: Vec<Image>,
}

} // verus!
