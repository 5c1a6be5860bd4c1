//! Waveform scale selection.
use vstd::prelude::*;

use crate::error::{Error, is_invalid_argument};

verus! {

/// Waveform scale selection.
///
/// A fit-width scale that covers a time range carries the number of source
/// frames that range spans; the caller converts the range's start and end
/// times into that count.
#[derive(Clone, Copy, Debug, PartialEq, Eq, Structural)]
pub enum ScaleSpec {
    /// Use a fixed number of source samples per waveform point.
    SamplesPerPixel(u32),
    /// Derive samples per waveform point from a target number of rendered pixels per second.
    PixelsPerSecond(u32),
    /// Fit a duration or full clip into the provided width.
    FitWidth {
        /// Output width in pixels.
        width_pixels: u32,
        /// Number of source frames in the selected time range; `None` selects the whole clip.
        range_frames: Option<u64>,
    },
}

/// The samples-per-pixel value a scale selects, before the minimum is checked.
pub open spec fn scale_candidate(scale: ScaleSpec, sample_rate: u32, frame_count: usize) -> int {
    match scale {
        ScaleSpec::SamplesPerPixel(v) => v as int,
        ScaleSpec::PixelsPerSecond(v) => sample_rate as int / v as int,
        ScaleSpec::FitWidth { width_pixels, range_frames } => {
            let frames: int = match range_frames {
                Some(f) => f as int,
                None => frame_count as int,
            };
            ((frames / width_pixels as int) as u32) as int
        },
    }
}

/// The scale's own argument is invalid (a zero rate or width).
pub open spec fn scale_argument_invalid(scale: ScaleSpec) -> bool {
    match scale {
        ScaleSpec::SamplesPerPixel(_) => false,
        ScaleSpec::PixelsPerSecond(v) => v == 0,
        ScaleSpec::FitWidth { width_pixels, .. } => width_pixels == 0,
    }
}

/// `resolve` succeeds exactly on these inputs.
pub open spec fn scale_resolves(scale: ScaleSpec, sample_rate: u32, frame_count: usize) -> bool {
    !scale_argument_invalid(scale) && scale_candidate(scale, sample_rate, frame_count) >= 2
}

/// `e` is the error `resolve` reports for a scale that does not resolve.
pub open spec fn scale_error(e: Error, scale: ScaleSpec) -> bool {
    match scale {
        ScaleSpec::PixelsPerSecond(0) => is_invalid_argument(
            e,
            "pixels per second"@,
            "Invalid pixels per second: must be greater than zero"@,
        ),
        ScaleSpec::FitWidth { width_pixels: 0, .. } => is_invalid_argument(
            e,
            "image width"@,
            "Invalid image width: minimum 1"@,
        ),
        _ => is_invalid_argument(e, "zoom"@, "Invalid zoom: minimum 2"@),
    }
}

impl ScaleSpec {
    /// Resolves the scale to a concrete number of samples per waveform point.
    pub fn resolve(self, sample_rate: u32, frame_count: usize) -> (r: Result<u32, Error>)
        ensures
            r is Ok <==> scale_resolves(self, sample_rate, frame_count),
            r matches Ok(v) ==> v == scale_candidate(self, sample_rate, frame_count),
            r matches Err(e) ==> scale_error(e, self),
    {
        let resolved: u32 = match self {
            ScaleSpec::SamplesPerPixel(value) => value,
            ScaleSpec::PixelsPerSecond(value) => {
                if value == 0 {
                    return Err(
                        Error::invalid_argument(
                            "pixels per second",
                            "Invalid pixels per second: must be greater than zero",
                        ),
                    );
                }
                sample_rate / value
            },
            ScaleSpec::FitWidth { width_pixels, range_frames } => {
                if width_pixels == 0 {
                    return Err(
                        Error::invalid_argument("image width", "Invalid image width: minimum 1"),
                    );
                }
                let frames: u64 = match range_frames {
                    Some(f) => f,
                    None => frame_count as u64,
                };
                (frames / width_pixels as u64) as u32
            },
        };
        if resolved < 2 {
            return Err(Error::invalid_argument("zoom", "Invalid zoom: minimum 2"));
        }
        Ok(resolved)
    }
}

} // verus!
