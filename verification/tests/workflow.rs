use telegram_video_converter::config::Config;
use telegram_video_converter::error::ConvertError;
use telegram_video_converter::report::Elapsed;
use telegram_video_converter::workflow::{
    advance, request, resolve_output_path, try_advance, Event, Request, Stage,
};

fn settings(input: &str) -> Config {
    Config::new(String::from(input))
}

fn run(config: &Config, events: Vec<Event>) -> Stage {
    let mut stage = Stage::start();
    for event in events {
        stage = advance(config, stage, event);
    }
    stage
}

fn took(secs: u64, nanos: u32) -> Elapsed {
    Elapsed::new(secs, nanos).unwrap()
}

fn up_to_the_encoder(output_exists: bool) -> Vec<Event> {
    vec![
        Event::InputChecked { exists: true },
        Event::EncoderProbed { available: true },
        Event::OutputChecked { exists: output_exists },
    ]
}

fn failure_of(config: &Config, stage: &Stage) -> ConvertError {
    match request(config, stage) {
        Request::Fail { error } => error,
        other => panic!("not a failure: {:?}", other),
    }
}

#[test]
fn output_path_is_taken_or_derived() {
    let mut config = settings("videos/a.b.mp4");
    assert_eq!(resolve_output_path(&config), "videos/a.b_telegram.mp4");
    config.output = Some(String::from("elsewhere/out.mp4"));
    assert_eq!(resolve_output_path(&config), "elsewhere/out.mp4");
}

#[test]
fn first_the_input_is_checked() {
    let config = settings("clip.mov");
    match request(&config, &Stage::start()) {
        Request::InputExists { path } => assert_eq!(path, "clip.mov"),
        other => panic!("unexpected {:?}", other),
    }
    assert_eq!(request(&config, &Stage::start()).exit_code(), None);
}

#[test]
fn missing_input_ends_the_run() {
    let config = settings("missing.mov");
    let stage = run(&config, vec![Event::InputChecked { exists: false }]);
    let todo = request(&config, &stage);
    assert_eq!(todo.exit_code(), Some(1));
    let error = failure_of(&config, &stage);
    assert!(matches!(&error, ConvertError::InputNotFound { path } if path == "missing.mov"));
    assert_eq!(error.message(), "Error: File 'missing.mov' not found");
    assert_eq!(error.exit_code(), 1);
}

#[test]
fn nothing_follows_a_failure() {
    let config = settings("missing.mov");
    let mut events = vec![Event::InputChecked { exists: false }];
    events.extend(up_to_the_encoder(false));
    events.push(Event::EncoderExited { code: Some(0), elapsed: took(1, 0) });
    events.push(Event::SizesRead { input: Some(1), output: Some(1) });
    let stage = run(&config, events);
    assert!(matches!(failure_of(&config, &stage), ConvertError::InputNotFound { .. }));
}

#[test]
fn then_the_encoder_is_asked_for_its_version() {
    let config = settings("clip.mov");
    let stage = run(&config, vec![Event::InputChecked { exists: true }]);
    match request(&config, &stage) {
        Request::EncoderVersion { args } => assert_eq!(args, ["-version"]),
        other => panic!("unexpected {:?}", other),
    }
}

#[test]
fn missing_encoder_ends_the_run() {
    let config = settings("clip.mov");
    let stage = run(
        &config,
        vec![Event::InputChecked { exists: true }, Event::EncoderProbed { available: false }],
    );
    assert_eq!(request(&config, &stage).exit_code(), Some(1));
    let error = failure_of(&config, &stage);
    assert!(matches!(error, ConvertError::EncoderUnavailable));
    assert_eq!(error.message(), "Error: ffmpeg is not installed or not in PATH");
}

#[test]
fn then_the_output_path_is_checked() {
    let config = settings("videos/clip.mov");
    let stage = run(
        &config,
        vec![Event::InputChecked { exists: true }, Event::EncoderProbed { available: true }],
    );
    match request(&config, &stage) {
        Request::OutputExists { path } => assert_eq!(path, "videos/clip_telegram.mp4"),
        other => panic!("unexpected {:?}", other),
    }
}

#[test]
fn existing_output_is_not_replaced() {
    let config = settings("clip.mov");
    let stage = run(&config, up_to_the_encoder(true));
    assert_eq!(request(&config, &stage).exit_code(), Some(1));
    let error = failure_of(&config, &stage);
    assert!(matches!(&error, ConvertError::OutputExists { path } if path == "clip_telegram.mp4"));
    assert_eq!(
        error.message(),
        "Error: Output file 'clip_telegram.mp4' already exists. Use -y to overwrite."
    );
}

#[test]
fn existing_output_is_replaced_on_demand() {
    let mut config = settings("clip.mov");
    config.overwrite = true;
    let stage = run(&config, up_to_the_encoder(true));
    match request(&config, &stage) {
        Request::Encode { args, .. } => {
            assert!(args.contains(&String::from("-y")));
            assert_eq!(args[..3], ["-i", "clip.mov", "-y"]);
        }
        other => panic!("unexpected {:?}", other),
    }
}

#[test]
fn encoder_is_started_with_notice_and_parameters() {
    let mut config = settings("clip.mov");
    config.output = Some(String::from("small.mp4"));
    let stage = run(&config, up_to_the_encoder(false));
    match request(&config, &stage) {
        Request::Encode { notice, args, show_output } => {
            assert_eq!(
                notice,
                [
                    "Converting 'clip.mov' for Telegram compatibility...",
                    "Output: 'small.mp4'",
                    "Settings: 2000kbps video, 128kbps audio, 25fps, CRF 23",
                ]
            );
            assert_eq!(args[..2], ["-i", "clip.mov"]);
            assert_eq!(args[args.len() - 3], "small.mp4");
            assert!(!show_output);
        }
        other => panic!("unexpected {:?}", other),
    }
    config.verbose = true;
    let stage = run(&config, up_to_the_encoder(false));
    assert!(matches!(request(&config, &stage), Request::Encode { show_output: true, .. }));
}

#[test]
fn encoder_that_cannot_start_ends_the_run() {
    let config = settings("clip.mov");
    let mut events = up_to_the_encoder(false);
    events.push(Event::EncoderNotStarted { reason: String::from("permission denied") });
    let stage = run(&config, events);
    assert_eq!(request(&config, &stage).exit_code(), Some(1));
    let error = failure_of(&config, &stage);
    assert!(matches!(&error, ConvertError::LaunchFailure { reason } if reason == "permission denied"));
    assert_eq!(error.message(), "✗ Failed to execute ffmpeg: permission denied");
}

#[test]
fn encoder_that_fails_ends_the_run() {
    let config = settings("clip.mov");
    for (code, text) in [(Some(1), "Some(1)"), (Some(-9), "Some(-9)"), (None, "None")] {
        let mut events = up_to_the_encoder(false);
        events.push(Event::EncoderExited { code, elapsed: took(3, 0) });
        let stage = run(&config, events);
        assert_eq!(request(&config, &stage).exit_code(), Some(1));
        let error = failure_of(&config, &stage);
        assert!(matches!(&error, ConvertError::EncodingFailure { code: c } if *c == code));
        assert_eq!(
            error.message(),
            format!("✗ Conversion failed with exit code: {}", text)
        );
    }
}

#[test]
fn after_the_encoder_the_sizes_are_read() {
    let config = settings("videos/clip.mov");
    let mut events = up_to_the_encoder(false);
    events.push(Event::EncoderExited { code: Some(0), elapsed: took(3, 0) });
    let stage = run(&config, events);
    match request(&config, &stage) {
        Request::FileSizes { input, output } => {
            assert_eq!(input, "videos/clip.mov");
            assert_eq!(output, "videos/clip_telegram.mp4");
        }
        other => panic!("unexpected {:?}", other),
    }
}

#[test]
fn ten_megabytes_to_three_report_thirty_percent() {
    let config = settings("clip.mov");
    let mut events = up_to_the_encoder(false);
    events.push(Event::EncoderExited { code: Some(0), elapsed: took(12, 345_678_901) });
    events.push(Event::SizesRead {
        input: Some(10 * 1024 * 1024),
        output: Some(3 * 1024 * 1024),
    });
    let stage = run(&config, events);
    let todo = request(&config, &stage);
    assert_eq!(todo.exit_code(), Some(0));
    match todo {
        Request::Succeed { report } => {
            assert_eq!(
                report,
                [
                    "✓ Conversion successful: clip_telegram.mp4",
                    "  Time taken: 12.35s",
                    "  Input size: 10.0 MB",
                    "  Output size: 3.0 MB",
                    "  Size ratio: 30.0%",
                ]
            );
        }
        other => panic!("unexpected {:?}", other),
    }
}

#[test]
fn sizes_are_left_out_where_one_cannot_be_read() {
    let config = settings("clip.mov");
    for (input, output) in [(None, Some(5u64)), (Some(5u64), None), (None, None)] {
        let mut events = up_to_the_encoder(false);
        events.push(Event::EncoderExited { code: Some(0), elapsed: took(0, 500_000_000) });
        events.push(Event::SizesRead { input, output });
        let stage = run(&config, events);
        match request(&config, &stage) {
            Request::Succeed { report } => {
                assert_eq!(
                    report,
                    ["✓ Conversion successful: clip_telegram.mp4", "  Time taken: 0.50s"]
                );
            }
            other => panic!("unexpected {:?}", other),
        }
    }
}

#[test]
fn ratio_of_an_empty_input_is_not_guarded() {
    let config = settings("clip.mov");
    let mut events = up_to_the_encoder(false);
    events.push(Event::EncoderExited { code: Some(0), elapsed: took(1, 0) });
    events.push(Event::SizesRead { input: Some(0), output: Some(2048) });
    let stage = run(&config, events);
    match request(&config, &stage) {
        Request::Succeed { report } => {
            assert_eq!(report[2], "  Input size: 0.0 B");
            assert_eq!(report[3], "  Output size: 2.0 KB");
            assert_eq!(report[4], "  Size ratio: inf%");
        }
        other => panic!("unexpected {:?}", other),
    }
}

#[test]
fn an_event_out_of_turn_changes_nothing() {
    let config = settings("clip.mov");
    let stage = run(
        &config,
        vec![
            Event::OutputChecked { exists: false },
            Event::EncoderExited { code: Some(0), elapsed: took(1, 0) },
            Event::SizesRead { input: Some(1), output: Some(1) },
            Event::EncoderProbed { available: true },
        ],
    );
    assert!(matches!(stage, Stage::CheckingInput));
    let stage = run(
        &config,
        vec![
            Event::InputChecked { exists: true },
            Event::InputChecked { exists: false },
            Event::OutputChecked { exists: true },
        ],
    );
    assert!(matches!(stage, Stage::ProbingEncoder));
}

#[test]
fn nothing_follows_success() {
    let config = settings("clip.mov");
    let mut events = up_to_the_encoder(false);
    events.push(Event::EncoderExited { code: Some(0), elapsed: took(1, 0) });
    events.push(Event::SizesRead { input: None, output: None });
    events.push(Event::InputChecked { exists: false });
    events.push(Event::EncoderExited { code: Some(1), elapsed: took(1, 0) });
    let stage = run(&config, events);
    assert_eq!(request(&config, &stage).exit_code(), Some(0));
}

#[test]
fn encoder_is_not_run_before_the_checks_have_passed() {
    let config = settings("clip.mov");
    let answers = [
        Event::InputChecked { exists: false },
        Event::EncoderProbed { available: false },
        Event::OutputChecked { exists: true },
    ];
    let mut stage = Stage::start();
    for round in 0..9 {
        assert!(!matches!(request(&config, &stage), Request::Encode { .. }));
        let event = match &answers[round % 3] {
            Event::InputChecked { exists } => Event::InputChecked { exists: *exists },
            Event::EncoderProbed { available } => Event::EncoderProbed { available: *available },
            _ => Event::OutputChecked { exists: true },
        };
        stage = advance(&config, stage, event);
    }
    assert!(!matches!(request(&config, &stage), Request::Encode { .. }));
}

#[test]
fn output_path_cannot_be_derived_without_a_file_name() {
    for input in ["..", "/", ".", "videos/.."] {
        let config = settings(input);
        let stage = run(&config, vec![Event::InputChecked { exists: true }]);
        assert!(try_advance(&config, stage, Event::EncoderProbed { available: true }).is_none());
        let stage = run(&config, vec![Event::InputChecked { exists: true }]);
        let next = try_advance(&config, stage, Event::EncoderProbed { available: false });
        assert!(matches!(next, Some(Stage::Failed { .. })));
        let next = try_advance(&config, Stage::start(), Event::InputChecked { exists: true });
        assert!(matches!(next, Some(Stage::ProbingEncoder)));
    }
}

#[test]
fn output_path_that_was_asked_for_needs_no_file_name() {
    let mut config = settings("..");
    config.output = Some(String::from("out.mp4"));
    let stage = run(&config, vec![Event::InputChecked { exists: true }]);
    match try_advance(&config, stage, Event::EncoderProbed { available: true }) {
        Some(Stage::CheckingOutput { output }) => assert_eq!(output, "out.mp4"),
        other => panic!("unexpected {:?}", other),
    }
}

#[test]
fn every_step_that_can_be_done_is_done() {
    let config = settings("clip.mov");
    let mut stage = Stage::start();
    let mut events = up_to_the_encoder(false);
    events.push(Event::EncoderExited { code: Some(0), elapsed: took(2, 0) });
    events.push(Event::SizesRead { input: Some(4096), output: Some(1024) });
    for event in events {
        stage = try_advance(&config, stage, event).unwrap();
    }
    match request(&config, &stage) {
        Request::Succeed { report } => assert_eq!(report[4], "  Size ratio: 25.0%"),
        other => panic!("unexpected {:?}", other),
    }
}

#[test]
fn output_may_coincide_with_the_input() {
    let mut config = settings("clip.mp4");
    config.output = Some(String::from("clip.mp4"));
    config.overwrite = true;
    let mut events = up_to_the_encoder(true);
    let stage = run(&config, up_to_the_encoder(true));
    match request(&config, &stage) {
        Request::Encode { args, .. } => {
            assert_eq!(args[1], "clip.mp4");
            assert_eq!(args[args.len() - 3], "clip.mp4");
        }
        other => panic!("unexpected {:?}", other),
    }
    events.push(Event::EncoderExited { code: Some(0), elapsed: took(1, 0) });
    events.push(Event::SizesRead { input: Some(700), output: Some(700) });
    let stage = run(&config, events);
    match request(&config, &stage) {
        Request::Succeed { report } => assert_eq!(report[4], "  Size ratio: 100.0%"),
        other => panic!("unexpected {:?}", other),
    }
}
