//! The layer's settings, resolved from the values of its environment variables.
use vstd::prelude::*;

use crate::text::{parse_u32, same_text, spec_parse_u32};

verus! {

/// The container that captured frames are written in.
#[derive(Clone, Copy, Debug, PartialEq, Eq, Structural)]
pub enum OutputFormat {
    Ppm,
    Png,
}

/// Settings fixed when an instance is created.
#[derive(Debug)]
pub struct LayerConfig {
    pub output_dir: String,
    pub output_format: OutputFormat,
    /// Capture one frame in this many; always 1 or more, and 1 captures every frame.
    pub capture_frequency: u32,
    /// Capture no frame whose number is this or more; 0 sets no bound.
    pub max_frames: u32,
    pub logging: bool,
}

/// A numeric setting: its parsed value, or `default` where it is unset or not a `u32`.
pub open spec fn numeric_setting(value: Option<&str>, default: u32) -> u32 {
    match value {
        Some(v) => match spec_parse_u32(v@) {
            Some(n) => n,
            None => default,
        },
        None => default,
    }
}

/// The capture frequency: a positive parsed value, else 1.
pub open spec fn frequency_setting(value: Option<&str>) -> u32 {
    let n = numeric_setting(value, 1);
    if n == 0 {
        1
    } else {
        n
    }
}

fn numeric(value: Option<&str>, default: u32) -> (r: u32)
    ensures
        r == numeric_setting(value, default),
{
    match value {
        Some(v) => match parse_u32(v) {
            Some(n) => n,
            None => default,
        },
        None => default,
    }
}

fn is_text(value: Option<&str>, expected: &str) -> (r: bool)
    ensures
        r == (value matches Some(v) && v@ == expected@),
{
    match value {
        Some(v) => same_text(v, expected),
        None => false,
    }
}

impl LayerConfig {
    /// Resolves the settings from the values of `VK_CAPTURE_OUTPUT_DIR`,
    /// `VK_CAPTURE_FORMAT`, `VK_CAPTURE_FREQUENCY`, `VK_CAPTURE_MAX_FRAMES` and
    /// `VK_UNSEEN_ENABLE` (`None` for one that is unset). Nothing fails: a missing or
    /// malformed value gives the default.
    pub fn resolve(
        output_dir: Option<&str>,
        format: Option<&str>,
        frequency: Option<&str>,
        max_frames: Option<&str>,
        enable: Option<&str>,
    ) -> (r: LayerConfig)
        ensures
            r.output_dir@ == (match output_dir {
                Some(d) => d@,
                None => "./captured_frames"@,
            }),
            r.output_format == (if format matches Some(f) && f@ == "png"@ {
                OutputFormat::Png
            } else {
                OutputFormat::Ppm
            }),
            r.capture_frequency == frequency_setting(frequency),
            r.capture_frequency >= 1,
            r.max_frames == numeric_setting(max_frames, 0),
            r.logging == (enable matches Some(e) && e@ == "1"@),
    {
        let output_dir = match output_dir {
            Some(d) => String::from_str(d),
            None => String::from_str("./captured_frames"),
        };
        let output_format = if is_text(format, "png") {
            OutputFormat::Png
        } else {
            OutputFormat::Ppm
        };
        let parsed = numeric(frequency, 1);
        let capture_frequency = if parsed == 0 {
            1
        } else {
            parsed
        };
        LayerConfig {
            output_dir,
            output_format,
            capture_frequency,
            max_frames: numeric(max_frames, 0),
            logging: is_text(enable, "1"),
        }
    }
}

} // verus!
