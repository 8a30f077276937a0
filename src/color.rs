use vstd::prelude::*;

verus! {

/// The six textual notations that the filter recognises.
#[derive(Clone, Copy, Debug, PartialEq, Eq, Structural)]
pub enum FormatTag {
    Hex,
    HexStripped,
    Rgb,
    Rgba,
    Hsl,
    Hsla,
}

/// A parsed color, as plain values. Channels are 0-255; hue is in degrees,
/// saturation and lightness in percent. An opacity is kept as the literal it
/// was written as, so that it is written back unchanged.
#[allow(inconsistent_fields)]
pub enum ColorValue {
    Hex { red: u8, green: u8, blue: u8, alpha: Option<u8> },
    HexStripped { red: u8, green: u8, blue: u8, alpha: Option<u8> },
    Rgb { red: u8, green: u8, blue: u8 },
    Rgba { red: u8, green: u8, blue: u8, alpha: String },
    Hsl { hue: u16, saturation: u8, lightness: u8 },
    Hsla { hue: u16, saturation: u8, lightness: u8, alpha: String },
}

/// The mathematical value of a `ColorValue`.
#[allow(inconsistent_fields)]
pub enum ColorModel {
    Hex { red: u8, green: u8, blue: u8, alpha: Option<u8> },
    HexStripped { red: u8, green: u8, blue: u8, alpha: Option<u8> },
    Rgb { red: u8, green: u8, blue: u8 },
    Rgba { red: u8, green: u8, blue: u8, alpha: Seq<char> },
    Hsl { hue: u16, saturation: u8, lightness: u8 },
    Hsla { hue: u16, saturation: u8, lightness: u8, alpha: Seq<char> },
}

impl View for ColorValue {
    type V = ColorModel;

    open spec fn view(&self) -> ColorModel {
        match self {
            ColorValue::Hex { red, green, blue, alpha } => ColorModel::Hex {
                red: *red,
                green: *green,
                blue: *blue,
                alpha: *alpha,
            },
            ColorValue::HexStripped { red, green, blue, alpha } => ColorModel::HexStripped {
                red: *red,
                green: *green,
                blue: *blue,
                alpha: *alpha,
            },
            ColorValue::Rgb { red, green, blue } => ColorModel::Rgb {
                red: *red,
                green: *green,
                blue: *blue,
            },
            ColorValue::Rgba { red, green, blue, alpha } => ColorModel::Rgba {
                red: *red,
                green: *green,
                blue: *blue,
                alpha: alpha@,
            },
            ColorValue::Hsl { hue, saturation, lightness } => ColorModel::Hsl {
                hue: *hue,
                saturation: *saturation,
                lightness: *lightness,
            },
            ColorValue::Hsla { hue, saturation, lightness, alpha } => ColorModel::Hsla {
                hue: *hue,
                saturation: *saturation,
                lightness: *lightness,
                alpha: alpha@,
            },
        }
    }
}

impl ColorModel {
    /// The notation the color was written in.
    pub open spec fn tag(self) -> FormatTag {
        match self {
            ColorModel::Hex { .. } => FormatTag::Hex,
            ColorModel::HexStripped { .. } => FormatTag::HexStripped,
            ColorModel::Rgb { .. } => FormatTag::Rgb,
            ColorModel::Rgba { .. } => FormatTag::Rgba,
            ColorModel::Hsl { .. } => FormatTag::Hsl,
            ColorModel::Hsla { .. } => FormatTag::Hsla,
        }
    }
}

impl ColorValue {
    /// The notation the color was written in.
    pub fn tag(&self) -> (r: FormatTag)
        ensures
            r == self@.tag(),
    {
        match self {
            ColorValue::Hex { .. } => FormatTag::Hex,
            ColorValue::HexStripped { .. } => FormatTag::HexStripped,
            ColorValue::Rgb { .. } => FormatTag::Rgb,
            ColorValue::Rgba { .. } => FormatTag::Rgba,
            ColorValue::Hsl { .. } => FormatTag::Hsl,
            ColorValue::Hsla { .. } => FormatTag::Hsla,
        }
    }
}

/// Why the filter gave up on a value.
#[derive(Clone, Copy, Debug, PartialEq, Eq, Structural)]
pub enum FilterError {
    /// The value handed to the filter is not text.
    NotAString,
    /// The text has the shape of a color, but a component is out of range.
    MalformedColorLiteral,
}

impl FilterError {
    /// A human-readable description of the error.
    pub fn message(&self) -> (r: String)
        ensures
            r@ == self.message_spec(),
    {
        match self {
            FilterError::NotAString => String::from_str("NotAString: the value is not a string"),
            FilterError::MalformedColorLiteral => String::from_str(
                "MalformedColorLiteral: a color component is out of range",
            ),
        }
    }

    pub open spec fn message_spec(&self) -> Seq<char> {
        match self {
            FilterError::NotAString => "NotAString: the value is not a string"@,
            FilterError::MalformedColorLiteral => "MalformedColorLiteral: a color component is out of range"@,
        }
    }
}

} // verus!
