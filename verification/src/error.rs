//! What can be wrong with a render's configuration, found before any ray is cast.

use vstd::prelude::*;
use vstd::string::StringExecFns;

verus! {

/// A configuration that would render a degenerate image.
#[derive(Clone, Copy, Debug, PartialEq, Eq, Structural)]
pub enum ConfigError {
    /// The image has fewer than two columns.
    WidthTooSmall,
    /// The image has fewer than two rows.
    HeightTooSmall,
    /// The aspect ratio gives the image more rows than can be counted.
    HeightTooLarge,
    /// A term of the aspect ratio is zero.
    AspectRatioNotPositive,
    /// A sphere's radius is zero, negative or not a number.
    RadiusNotPositive,
    /// No sample is taken per pixel.
    NoSamples,
}

impl ConfigError {
    /// The sentence that `describe` returns.
    pub open spec fn message(self) -> Seq<char> {
        match self {
            ConfigError::WidthTooSmall => "image width must be at least 2"@,
            ConfigError::HeightTooSmall => "image height must be at least 2"@,
            ConfigError::HeightTooLarge => "image height does not fit in 32 bits"@,
            ConfigError::AspectRatioNotPositive => "aspect ratio must be positive"@,
            ConfigError::RadiusNotPositive => "sphere radius must be positive"@,
            ConfigError::NoSamples => "samples per pixel must be at least 1"@,
        }
    }

    /// A sentence for the operator.
    pub fn describe(&self) -> (text: String)
        ensures
            text@ == self.message(),
    {
        match self {
            ConfigError::WidthTooSmall => String::from_str("image width must be at least 2"),
            ConfigError::HeightTooSmall => String::from_str("image height must be at least 2"),
            ConfigError::HeightTooLarge => String::from_str("image height does not fit in 32 bits"),
            ConfigError::AspectRatioNotPositive => String::from_str(
                "aspect ratio must be positive",
            ),
            ConfigError::RadiusNotPositive => String::from_str("sphere radius must be positive"),
            ConfigError::NoSamples => String::from_str("samples per pixel must be at least 1"),
        }
    }
}

} // verus!
