//! Persisted configuration of the lighting service.

use vstd::prelude::*;

verus! {

/// Winding direction of the strip around the screen, seen from the front.
#[derive(Clone, Copy, Debug, PartialEq, Eq, Structural, PartialOrd, Ord)]
pub enum Direction {
    /// Clockwise
    CW,
    /// Counter clockwise
    CCW,
}

/// Corner of the screen at which the first LED of the strip sits.
#[derive(Clone, Copy, Debug, PartialEq, Eq, Structural, PartialOrd, Ord)]
pub enum StartCorner {
    /// Top left corner
    TL,
    /// Top right corner
    TR,
    /// Bottom left corner
    BL,
    /// Bottom right corner
    BR,
}

/// Verbosity of the log output.
#[derive(Clone, Copy, Debug, PartialEq, Eq, Structural)]
pub enum LogLevel {
    Info,
    Debug,
    Trace,
}

/// Internal processing resolution of the captured video. Only the border of a
/// frame is sampled, so a small resolution is enough and keeps the load low.
#[derive(Clone, Copy, Debug, PartialEq, Eq, Structural)]
pub enum Resolution {
    FHD,
    HD,
    VGA,
}

/// Settings of the service, normally read from a settings file.
#[derive(Clone, Copy, Debug)]
pub struct Settings {
    pub log_level: LogLevel,
    pub video_device: i32,
    pub capture_area_size: i32,
    pub processing_resolution: Resolution,
    pub start_corner: StartCorner,
    pub direction: Direction,
    pub led_count: i32,
}

impl Settings {
    /// The settings written to a fresh settings file.
    pub fn default() -> (s: Settings)
        ensures
            s.log_level == LogLevel::Info,
            s.video_device == 0,
            s.capture_area_size == 10,
            s.processing_resolution == Resolution::VGA,
            s.start_corner == StartCorner::BL,
            s.direction == Direction::CW,
            s.led_count == 123,
    {
        Settings {
            log_level: LogLevel::Info,
            video_device: 0,
            capture_area_size: 10,
            processing_resolution: Resolution::VGA,
            start_corner: StartCorner::BL,
            direction: Direction::CW,
            led_count: 123,
        }
    }
}

} // verus!
