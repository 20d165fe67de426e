//! The parameter list that the external encoder is started with.

use vstd::prelude::*;
use vstd::string::*;
use crate::config::{Config, ConfigView};
use crate::text::{decimal, decimal_string};

verus! {

/// The name under which the encoder is found on the execution path.
pub open spec fn encoder_name() -> Seq<char> {
    "ffmpeg"@
}

/// The parameters that ask the encoder for its version, which shows whether
/// it can be reached at all.
pub open spec fn probe_args() -> Seq<Seq<char>> {
    seq!["-version"@]
}

/// A rate in kbps as the encoder reads it: the number followed by `k`.
pub open spec fn kilobits(rate: nat) -> Seq<char> {
    decimal(rate) + seq!['k']
}

/// Selects the input and, where an existing output may be replaced, forces
/// the overwrite.
pub open spec fn input_args(config: ConfigView) -> Seq<Seq<char>> {
    if config.overwrite {
        seq!["-i"@, config.input, "-y"@]
    } else {
        seq!["-i"@, config.input]
    }
}

/// Video settings: H.264 in the constrained baseline profile at level 3.0
/// with 4:2:0 pixels, the quality factor, the bitrate cap with a buffer of
/// twice the cap, and the frame rate.
pub open spec fn video_args(config: ConfigView) -> Seq<Seq<char>> {
    seq![
        "-c:v"@,
        "libx264"@,
        "-profile:v"@,
        "baseline"@,
        "-level"@,
        "3.0"@,
        "-pix_fmt"@,
        "yuv420p"@,
        "-crf"@,
        decimal(config.crf),
        "-maxrate"@,
        kilobits(config.bitrate),
        "-bufsize"@,
        kilobits(2 * config.bitrate),
        "-r"@,
        decimal(config.fps),
    ]
}

/// Audio settings: AAC at 44100 Hz in two channels at the configured bitrate.
pub open spec fn audio_args(config: ConfigView) -> Seq<Seq<char>> {
    seq!["-c:a"@, "aac"@, "-ar"@, "44100"@, "-ac"@, "2"@, "-b:a"@, kilobits(config.audio_bitrate)]
}

/// Container settings: metadata at the front for streaming, the MP4 format,
/// and the output path.
pub open spec fn container_args(output: Seq<char>) -> Seq<Seq<char>> {
    seq!["-movflags"@, "+faststart"@, "-f"@, "mp4"@, output]
}

/// Keeps the encoder quiet except for errors, unless its output was asked for.
pub open spec fn logging_args(config: ConfigView) -> Seq<Seq<char>> {
    if config.verbose {
        seq![]
    } else {
        seq!["-loglevel"@, "error"@]
    }
}

/// The whole parameter list, in the order the encoder needs: input, video,
/// audio, container and output, logging.
pub open spec fn encoder_args(config: ConfigView, output: Seq<char>) -> Seq<Seq<char>> {
    input_args(config) + video_args(config) + audio_args(config) + container_args(output)
        + logging_args(config)
}

/// The buffer size handed to the encoder is exactly twice the bitrate cap,
/// whatever the settings: behind `-maxrate` stands the cap, behind
/// `-bufsize` twice the cap, both in kbps.
pub proof fn lemma_buffer_is_twice_the_cap(config: ConfigView, output: Seq<char>)
    ensures
        ({
            let args = encoder_args(config, output);
            let at = input_args(config).len() as int + 10;
            &&& args[at] == "-maxrate"@
            &&& args[at + 1] == kilobits(config.bitrate)
            &&& args[at + 2] == "-bufsize"@
            &&& args[at + 3] == kilobits(2 * config.bitrate)
        }),
{
}

/// The overwrite is forced exactly where the settings allow it: `-y` is the
/// third parameter then, and otherwise the video settings follow the input
/// at once.
pub proof fn lemma_overwrite_flag(config: ConfigView, output: Seq<char>)
    ensures
        encoder_args(config, output)[0] == "-i"@,
        encoder_args(config, output)[1] == config.input,
        config.overwrite ==> encoder_args(config, output)[2] == "-y"@,
        !config.overwrite ==> encoder_args(config, output)[2] == "-c:v"@,
{
}

/// The name under which the encoder is found on the execution path.
pub fn encoder_program() -> (name: &'static str)
    ensures
        name@ == encoder_name(),
{
    "ffmpeg"
}

/// Assembles the parameters of the version query.
pub fn build_probe_args() -> (args: Vec<String>)
    ensures
        args.deep_view() == probe_args(),
{
    let mut args: Vec<String> = Vec::new();
    args.push(String::from_str("-version"));
    assert(args.deep_view() =~= probe_args());
    args
}

fn push_text(args: &mut Vec<String>, text: &str)
    ensures
        final(args).deep_view() == old(args).deep_view().push(text@),
{
    args.push(String::from_str(text));
    assert(final(args).deep_view() =~= old(args).deep_view().push(text@));
}

fn push_kilobits(args: &mut Vec<String>, rate: u64)
    ensures
        final(args).deep_view() == old(args).deep_view().push(kilobits(rate as nat)),
{
    let mut text = decimal_string(rate as u128);
    text.append("k");
    proof {
        reveal_strlit("k");
        assert(text@ =~= kilobits(rate as nat));
    }
    args.push(text);
    assert(final(args).deep_view() =~= old(args).deep_view().push(kilobits(rate as nat)));
}

fn push_number(args: &mut Vec<String>, n: u32)
    ensures
        final(args).deep_view() == old(args).deep_view().push(decimal(n as nat)),
{
    args.push(decimal_string(n as u128));
    assert(final(args).deep_view() =~= old(args).deep_view().push(decimal(n as nat)));
}

/// Assembles the parameter list for converting `config.input` into `output`.
pub fn build_encoder_args(config: &Config, output: &str) -> (args: Vec<String>)
    ensures
        args.deep_view() == encoder_args(config@, output@),
{
    let mut args: Vec<String> = Vec::new();
    assert(args.deep_view() =~= Seq::<Seq<char>>::empty());
    push_text(&mut args, "-i");
    push_text(&mut args, config.input.as_str());
    if config.overwrite {
        push_text(&mut args, "-y");
    }
    assert(args.deep_view() =~= input_args(config@));
    push_text(&mut args, "-c:v");
    push_text(&mut args, "libx264");
    push_text(&mut args, "-profile:v");
    push_text(&mut args, "baseline");
    push_text(&mut args, "-level");
    push_text(&mut args, "3.0");
    push_text(&mut args, "-pix_fmt");
    push_text(&mut args, "yuv420p");
    push_text(&mut args, "-crf");
    push_number(&mut args, config.crf);
    push_text(&mut args, "-maxrate");
    push_kilobits(&mut args, config.bitrate as u64);
    push_text(&mut args, "-bufsize");
    push_kilobits(&mut args, 2 * (config.bitrate as u64));
    push_text(&mut args, "-r");
    push_number(&mut args, config.fps);
    assert(args.deep_view() =~= input_args(config@) + video_args(config@));
    push_text(&mut args, "-c:a");
    push_text(&mut args, "aac");
    push_text(&mut args, "-ar");
    push_text(&mut args, "44100");
    push_text(&mut args, "-ac");
    push_text(&mut args, "2");
    push_text(&mut args, "-b:a");
    push_kilobits(&mut args, config.audio_bitrate as u64);
    assert(args.deep_view() =~= input_args(config@) + video_args(config@) + audio_args(config@));
    push_text(&mut args, "-movflags");
    push_text(&mut args, "+faststart");
    push_text(&mut args, "-f");
    push_text(&mut args, "mp4");
    push_text(&mut args, output);
    assert(args.deep_view() =~= input_args(config@) + video_args(config@) + audio_args(config@)
        + container_args(output@));
    if !config.verbose {
        push_text(&mut args, "-loglevel");
        push_text(&mut args, "error");
    }
    assert(args.deep_view() =~= encoder_args(config@, output@));
    args
}

} // verus!
