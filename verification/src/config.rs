//! The settings of one conversion.

use vstd::prelude::*;

verus! {

/// Video bitrate in kbps where none is given.
pub const DEFAULT_BITRATE: u32 = 2000;

/// Audio bitrate in kbps where none is given.
pub const DEFAULT_AUDIO_BITRATE: u32 = 128;

/// Frame rate where none is given.
pub const DEFAULT_FPS: u32 = 25;

/// Quality factor where none is given.
pub const DEFAULT_CRF: u32 = 23;

/// The settings of one conversion. They are fixed when the program starts
/// and only read afterwards.
#[derive(Debug)]
pub struct Config {
    /// Path of the video to convert.
    pub input: String,
    /// Path of the converted file; derived from the input where absent.
    pub output: Option<String>,
    /// Cap on the video bitrate, in kbps.
    pub bitrate: u32,
    /// Audio bitrate, in kbps.
    pub audio_bitrate: u32,
    /// Frames per second.
    pub fps: u32,
    /// Quality factor handed to the encoder as it is; lower is better.
    pub crf: u32,
    /// Whether an existing output file may be replaced.
    pub overwrite: bool,
    /// Whether the encoder's own output is shown.
    pub verbose: bool,
}

/// The settings as mathematical values.
pub ghost struct ConfigView {
    pub input: Seq<char>,
    pub output: Option<Seq<char>>,
    pub bitrate: nat,
    pub audio_bitrate: nat,
    pub fps: nat,
    pub crf: nat,
    pub overwrite: bool,
    pub verbose: bool,
}

impl View for Config {
    type V = ConfigView;

    open spec fn view(&self) -> ConfigView {
        ConfigView {
            input: self.input@,
            output: self.output.deep_view(),
            bitrate: self.bitrate as nat,
            audio_bitrate: self.audio_bitrate as nat,
            fps: self.fps as nat,
            crf: self.crf as nat,
            overwrite: self.overwrite,
            verbose: self.verbose,
        }
    }
}

/// The settings that hold where only the input is given.
pub open spec fn default_settings(input: Seq<char>) -> ConfigView {
    ConfigView {
        input,
        output: None,
        bitrate: 2000,
        audio_bitrate: 128,
        fps: 25,
        crf: 23,
        overwrite: false,
        verbose: false,
    }
}

impl Config {
    /// The settings for converting `input` with every option at its default.
    pub fn new(input: String) -> (config: Config)
        ensures
            config@ == default_settings(input@),
    {
        Config {
            input,
            output: None,
            bitrate: DEFAULT_BITRATE,
            audio_bitrate: DEFAULT_AUDIO_BITRATE,
            fps: DEFAULT_FPS,
            crf: DEFAULT_CRF,
            overwrite: false,
            verbose: false,
        }
    }
}

} // verus!
