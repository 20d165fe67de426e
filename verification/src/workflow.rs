//! The course of one conversion, step by step.
//!
//! The library never touches the file system or starts a process. It says
//! what is to be done next (a [`Request`]), the program around it does that
//! and reports what came of it (an [`Event`]), and the library moves on to
//! the next [`Stage`]. The course is a straight line: check the input, ask
//! the encoder for its version, settle the output path and check it, run the
//! encoder, read the file sizes, report. The first failure ends it.

use vstd::prelude::*;
use vstd::string::*;
use crate::command::{build_encoder_args, build_probe_args, encoder_args, probe_args};
use crate::config::{Config, ConfigView};
use crate::error::{code_view, ConvertError, ErrorView};
use crate::path::{derived_output_path, generate_output_path, has_file_name, names_file};
use crate::report::{
    announce, announcement, report_success, sizes_view, success_report, Elapsed, ElapsedView,
};

verus! {

/// What the program around the library reports back.
#[derive(Debug)]
pub enum Event {
    /// Whether the input path exists.
    InputChecked { exists: bool },
    /// Whether the encoder answered the version query.
    EncoderProbed { available: bool },
    /// Whether the output path exists.
    OutputChecked { exists: bool },
    /// The encoder ran and ended: its exit code, where it had one, and the
    /// time from its start to its end.
    EncoderExited { code: Option<i32>, elapsed: Elapsed },
    /// The encoder could not be started; `reason` is what the system said.
    EncoderNotStarted { reason: String },
    /// The sizes of both files in bytes, each where it could be read.
    SizesRead { input: Option<u64>, output: Option<u64> },
}

/// An event as mathematical values.
pub ghost enum EventView {
    InputChecked { exists: bool },
    EncoderProbed { available: bool },
    OutputChecked { exists: bool },
    EncoderExited { code: Option<int>, elapsed: ElapsedView },
    EncoderNotStarted { reason: Seq<char> },
    SizesRead { input: Option<nat>, output: Option<nat> },
}

/// A file size as a mathematical value.
pub open spec fn size_view(size: Option<u64>) -> Option<nat> {
    match size {
        Some(bytes) => Some(bytes as nat),
        None => None,
    }
}

impl View for Event {
    type V = EventView;

    open spec fn view(&self) -> EventView {
        match self {
            Event::InputChecked { exists } => EventView::InputChecked { exists: *exists },
            Event::EncoderProbed { available } => EventView::EncoderProbed {
                available: *available,
            },
            Event::OutputChecked { exists } => EventView::OutputChecked { exists: *exists },
            Event::EncoderExited { code, elapsed } => EventView::EncoderExited {
                code: code_view(*code),
                elapsed: elapsed@,
            },
            Event::EncoderNotStarted { reason } => EventView::EncoderNotStarted {
                reason: reason@,
            },
            Event::SizesRead { input, output } => EventView::SizesRead {
                input: size_view(*input),
                output: size_view(*output),
            },
        }
    }
}

/// How far a conversion has come.
#[derive(Debug)]
pub enum Stage {
    /// Waiting to learn whether the input exists.
    CheckingInput,
    /// Waiting to learn whether the encoder can be reached.
    ProbingEncoder,
    /// Waiting to learn whether the output path is taken.
    CheckingOutput { output: String },
    /// Waiting for the encoder to end.
    Encoding { output: String },
    /// Waiting for the sizes of both files.
    Measuring { output: String, elapsed: Elapsed },
    /// The conversion succeeded. `sizes` holds the size of the input and
    /// then that of the output, where both could be read.
    Finished { output: String, elapsed: Elapsed, sizes: Option<(u64, u64)> },
    /// The conversion failed.
    Failed { error: ConvertError },
}

/// A stage as mathematical values.
pub ghost enum StageView {
    CheckingInput,
    ProbingEncoder,
    CheckingOutput { output: Seq<char> },
    Encoding { output: Seq<char> },
    Measuring { output: Seq<char>, elapsed: ElapsedView },
    Finished { output: Seq<char>, elapsed: ElapsedView, sizes: Option<(nat, nat)> },
    Failed { error: ErrorView },
}

impl View for Stage {
    type V = StageView;

    open spec fn view(&self) -> StageView {
        match self {
            Stage::CheckingInput => StageView::CheckingInput,
            Stage::ProbingEncoder => StageView::ProbingEncoder,
            Stage::CheckingOutput { output } => StageView::CheckingOutput { output: output@ },
            Stage::Encoding { output } => StageView::Encoding { output: output@ },
            Stage::Measuring { output, elapsed } => StageView::Measuring {
                output: output@,
                elapsed: elapsed@,
            },
            Stage::Finished { output, elapsed, sizes } => StageView::Finished {
                output: output@,
                elapsed: elapsed@,
                sizes: sizes_view(*sizes),
            },
            Stage::Failed { error } => StageView::Failed { error: error@ },
        }
    }
}

/// What the program around the library is to do next.
#[derive(Debug)]
pub enum Request {
    /// Find out whether `path` exists.
    InputExists { path: String },
    /// Run the encoder with `args`, keeping its output to itself, to see
    /// whether it can be reached.
    EncoderVersion { args: Vec<String> },
    /// Find out whether `path` exists.
    OutputExists { path: String },
    /// Print `notice`, then run the encoder with `args` and wait for it,
    /// taking the time. `show_output` says whether the encoder's own output
    /// is shown.
    Encode { notice: Vec<String>, args: Vec<String>, show_output: bool },
    /// Read the sizes of both files.
    FileSizes { input: String, output: String },
    /// Print `report` and end with status 0.
    Succeed { report: Vec<String> },
    /// Print the message of `error` to the error stream and end with
    /// status 1.
    Fail { error: ConvertError },
}

/// A request as mathematical values.
pub ghost enum RequestView {
    InputExists { path: Seq<char> },
    EncoderVersion { args: Seq<Seq<char>> },
    OutputExists { path: Seq<char> },
    Encode { notice: Seq<Seq<char>>, args: Seq<Seq<char>>, show_output: bool },
    FileSizes { input: Seq<char>, output: Seq<char> },
    Succeed { report: Seq<Seq<char>> },
    Fail { error: ErrorView },
}

impl View for Request {
    type V = RequestView;

    open spec fn view(&self) -> RequestView {
        match self {
            Request::InputExists { path } => RequestView::InputExists { path: path@ },
            Request::EncoderVersion { args } => RequestView::EncoderVersion {
                args: args.deep_view(),
            },
            Request::OutputExists { path } => RequestView::OutputExists { path: path@ },
            Request::Encode { notice, args, show_output } => RequestView::Encode {
                notice: notice.deep_view(),
                args: args.deep_view(),
                show_output: *show_output,
            },
            Request::FileSizes { input, output } => RequestView::FileSizes {
                input: input@,
                output: output@,
            },
            Request::Succeed { report } => RequestView::Succeed { report: report.deep_view() },
            Request::Fail { error } => RequestView::Fail { error: error@ },
        }
    }
}

impl RequestView {
    /// The status the process ends with, where the request ends it.
    pub open spec fn exit_code(self) -> Option<int> {
        match self {
            RequestView::Succeed { .. } => Some(0),
            RequestView::Fail { .. } => Some(1),
            _ => None,
        }
    }
}

/// The output path of a conversion: the one that was asked for, or else the
/// one derived from the input path.
pub open spec fn resolved_output(config: ConfigView) -> Seq<char> {
    match config.output {
        Some(path) => path,
        None => derived_output_path(config.input),
    }
}

/// What is to be done in a stage.
pub open spec fn request_of(config: ConfigView, stage: StageView) -> RequestView {
    match stage {
        StageView::CheckingInput => RequestView::InputExists { path: config.input },
        StageView::ProbingEncoder => RequestView::EncoderVersion { args: probe_args() },
        StageView::CheckingOutput { output } => RequestView::OutputExists { path: output },
        StageView::Encoding { output } => RequestView::Encode {
            notice: announcement(config, output),
            args: encoder_args(config, output),
            show_output: config.verbose,
        },
        StageView::Measuring { output, .. } => RequestView::FileSizes {
            input: config.input,
            output,
        },
        StageView::Finished { output, elapsed, sizes } => RequestView::Succeed {
            report: success_report(output, elapsed, sizes),
        },
        StageView::Failed { error } => RequestView::Fail { error },
    }
}

/// Both sizes, where both could be read: that of the input first.
pub open spec fn both_sizes(input: Option<nat>, output: Option<nat>) -> Option<(nat, nat)> {
    match (input, output) {
        (Some(input_size), Some(output_size)) => Some((input_size, output_size)),
        _ => None,
    }
}

/// The stage that follows when `event` is reported in `stage`. An event that
/// does not answer the request of the stage changes nothing; neither does
/// any event once the conversion has finished or failed.
pub open spec fn next_stage(config: ConfigView, stage: StageView, event: EventView) -> StageView {
    match (stage, event) {
        (StageView::CheckingInput, EventView::InputChecked { exists }) => if exists {
            StageView::ProbingEncoder
        } else {
            StageView::Failed { error: ErrorView::InputNotFound { path: config.input } }
        },
        (StageView::ProbingEncoder, EventView::EncoderProbed { available }) => if available {
            StageView::CheckingOutput { output: resolved_output(config) }
        } else {
            StageView::Failed { error: ErrorView::EncoderUnavailable }
        },
        (StageView::CheckingOutput { output }, EventView::OutputChecked { exists }) => if exists
            && !config.overwrite {
            StageView::Failed { error: ErrorView::OutputExists { path: output } }
        } else {
            StageView::Encoding { output }
        },
        (StageView::Encoding { output }, EventView::EncoderExited { code, elapsed }) => if code
            == Some(0int) {
            StageView::Measuring { output, elapsed }
        } else {
            StageView::Failed { error: ErrorView::EncodingFailure { code } }
        },
        (StageView::Encoding { output }, EventView::EncoderNotStarted { reason }) => {
            StageView::Failed { error: ErrorView::LaunchFailure { reason } }
        },
        (
            StageView::Measuring { output, elapsed },
            EventView::SizesRead { input: input_size, output: output_size },
        ) => StageView::Finished { output, elapsed, sizes: both_sizes(input_size, output_size) },
        _ => stage,
    }
}

/// Whether the step from `stage` on `event` derives the output path from the
/// input path, which must then name a file.
pub open spec fn derives_output(config: ConfigView, stage: StageView, event: EventView) -> bool {
    stage is ProbingEncoder && event == (EventView::EncoderProbed { available: true })
        && config.output is None
}

/// The stage reached from `stage` when `events` are reported one after
/// another.
pub open spec fn stage_from(
    config: ConfigView,
    stage: StageView,
    events: Seq<EventView>,
) -> StageView
    decreases events.len(),
{
    if events.len() == 0 {
        stage
    } else {
        stage_from(config, next_stage(config, stage, events[0]), events.drop_first())
    }
}

/// The stage reached from the start when `events` are reported one after
/// another.
pub open spec fn stage_after(config: ConfigView, events: Seq<EventView>) -> StageView {
    stage_from(config, StageView::CheckingInput, events)
}

/// Whether the events reported so far bear out the stage: the encoder is
/// waited for, or has run, only after the input was found, the encoder
/// answered, and the output path was found free or may be overwritten; the
/// sizes are read, and success is reported, only after the encoder ended
/// with status zero; a failure is reported only after the event that is
/// its reason; and every stage that knows an output path knows the
/// resolved one.
pub open spec fn borne_out(config: ConfigView, stage: StageView, events: Seq<EventView>) -> bool {
    let input_found = events.contains(EventView::InputChecked { exists: true });
    let encoder_found = events.contains(EventView::EncoderProbed { available: true });
    let output_free = config.overwrite || events.contains(
        EventView::OutputChecked { exists: false },
    );
    match stage {
        StageView::CheckingInput => true,
        StageView::ProbingEncoder => input_found,
        StageView::CheckingOutput { output } => input_found && encoder_found && output
            == resolved_output(config),
        StageView::Encoding { output } => input_found && encoder_found && output_free && output
            == resolved_output(config),
        StageView::Measuring { output, elapsed } => input_found && encoder_found && output_free
            && output == resolved_output(config) && events.contains(
            EventView::EncoderExited { code: Some(0int), elapsed },
        ),
        StageView::Finished { output, elapsed, .. } => input_found && encoder_found
            && output_free && output == resolved_output(config) && events.contains(
            EventView::EncoderExited { code: Some(0int), elapsed },
        ),
        StageView::Failed { error } => match error {
            ErrorView::InputNotFound { path } => path == config.input && events.contains(
                EventView::InputChecked { exists: false },
            ),
            ErrorView::EncoderUnavailable => input_found && events.contains(
                EventView::EncoderProbed { available: false },
            ),
            ErrorView::OutputExists { path } => input_found && encoder_found
                && !config.overwrite && path == resolved_output(config) && events.contains(
                EventView::OutputChecked { exists: true },
            ),
            ErrorView::LaunchFailure { reason } => input_found && encoder_found && output_free
                && events.contains(EventView::EncoderNotStarted { reason }),
            ErrorView::EncodingFailure { code } => input_found && encoder_found && output_free
                && code != Some(0int) && exists|elapsed: ElapsedView| #[trigger]
                events.contains(EventView::EncoderExited { code, elapsed }),
        },
    }
}

/// Reporting `first` and then `rest` is one step followed by the course on
/// `rest`.
pub proof fn lemma_first_step(
    config: ConfigView,
    stage: StageView,
    first: EventView,
    rest: Seq<EventView>,
)
    ensures
        stage_from(config, stage, seq![first] + rest) == stage_from(
            config,
            next_stage(config, stage, first),
            rest,
        ),
{
    let events = seq![first] + rest;
    assert(events[0] == first);
    assert(events.drop_first() =~= rest);
}

/// Once a conversion has finished or failed, no event changes that.
pub proof fn lemma_final_stage_stays(config: ConfigView, stage: StageView, events: Seq<EventView>)
    requires
        stage is Finished || stage is Failed,
    ensures
        stage_from(config, stage, events) == stage,
    decreases events.len(),
{
    if events.len() > 0 {
        lemma_final_stage_stays(config, stage, events.drop_first());
    }
}

/// A stage that is borne out by the events before it stays so along every
/// further course of events.
pub proof fn lemma_borne_out_from(
    config: ConfigView,
    stage: StageView,
    past: Seq<EventView>,
    events: Seq<EventView>,
)
    requires
        borne_out(config, stage, past),
    ensures
        borne_out(config, stage_from(config, stage, events), past + events),
    decreases events.len(),
{
    if events.len() == 0 {
        assert(past + events =~= past);
    } else {
        let first = events[0];
        let seen = past.push(first);
        assert(seen[past.len() as int] == first);
        assert forall|e: EventView| past.contains(e) implies seen.contains(e) by {
            let i = choose|i: int| 0 <= i < past.len() && past[i] == e;
            assert(seen[i] == e);
        }
        let next = next_stage(config, stage, first);
        assert(seen.contains(first));
        if next is Failed && next->error is EncodingFailure {
            let code = next->error->code;
            if stage == next {
                let before = choose|elapsed: ElapsedView| #[trigger]
                    past.contains(EventView::EncoderExited { code, elapsed });
                assert(seen.contains(EventView::EncoderExited { code, elapsed: before }));
            } else {
                let taken = first->EncoderExited_elapsed;
                assert(first == EventView::EncoderExited { code, elapsed: taken });
                assert(seen.contains(EventView::EncoderExited { code, elapsed: taken }));
            }
        }
        assert(borne_out(config, next, seen));
        lemma_borne_out_from(config, next, seen, events.drop_first());
        assert(seen + events.drop_first() =~= past + events);
    }
}

/// Whatever is reported, and in whatever order: the encoder is run only
/// after the input was found, the encoder answered the version query, and
/// the output path was found free or may be overwritten.
pub proof fn lemma_encoder_runs_only_after_checks(config: ConfigView, events: Seq<EventView>)
    requires
        request_of(config, stage_after(config, events)) is Encode,
    ensures
        events.contains(EventView::InputChecked { exists: true }),
        events.contains(EventView::EncoderProbed { available: true }),
        config.overwrite || events.contains(EventView::OutputChecked { exists: false }),
        request_of(config, stage_after(config, events))->Encode_args == encoder_args(
            config,
            resolved_output(config),
        ),
{
    lemma_borne_out_from(config, StageView::CheckingInput, Seq::empty(), events);
    assert(Seq::<EventView>::empty() + events =~= events);
}

/// Whatever is reported, and in whatever order: a failure is reported only
/// after the event that is its reason, and with the path, the reason or
/// the exit code that belongs to it.
pub proof fn lemma_failure_has_its_reason(config: ConfigView, events: Seq<EventView>)
    ensures
        stage_after(config, events) matches StageView::Failed { error } ==> match error {
            ErrorView::InputNotFound { path } => path == config.input && events.contains(
                EventView::InputChecked { exists: false },
            ),
            ErrorView::EncoderUnavailable => events.contains(
                EventView::EncoderProbed { available: false },
            ),
            ErrorView::OutputExists { path } => !config.overwrite && path == resolved_output(
                config,
            ) && events.contains(EventView::OutputChecked { exists: true }),
            ErrorView::LaunchFailure { reason } => events.contains(
                EventView::EncoderNotStarted { reason },
            ),
            ErrorView::EncodingFailure { code } => code != Some(0int) && exists|
                elapsed: ElapsedView,
            | #[trigger]
                events.contains(EventView::EncoderExited { code, elapsed }),
        },
{
    lemma_borne_out_from(config, StageView::CheckingInput, Seq::empty(), events);
    assert(Seq::<EventView>::empty() + events =~= events);
}

/// Whatever is reported, and in whatever order: success is reported only
/// after the encoder was run and ended with status zero, and the report
/// shows the time that this run took. It ends the process with status 0,
/// and every failure ends it with status 1.
pub proof fn lemma_success_needs_zero_exit(config: ConfigView, events: Seq<EventView>)
    ensures
        stage_after(config, events) matches StageView::Finished { output, elapsed, sizes }
            ==> events.contains(EventView::EncoderExited { code: Some(0int), elapsed })
            && request_of(config, stage_after(config, events)) == (RequestView::Succeed {
            report: success_report(resolved_output(config), elapsed, sizes),
        }),
        request_of(config, stage_after(config, events)) is Succeed ==> request_of(
            config,
            stage_after(config, events),
        ).exit_code() == Some(0int),
        request_of(config, stage_after(config, events)) is Fail ==> request_of(
            config,
            stage_after(config, events),
        ).exit_code() == Some(1int),
{
    lemma_borne_out_from(config, StageView::CheckingInput, Seq::empty(), events);
    assert(Seq::<EventView>::empty() + events =~= events);
}

/// Where every check passes and the encoder ends with status zero, the
/// conversion runs its full course: the input is checked, the encoder
/// asked for its version, the output path checked, the encoder run, the
/// sizes read, and success reported with the time taken and, where both
/// could be read, the sizes.
pub proof fn lemma_full_course(
    config: ConfigView,
    output_exists: bool,
    elapsed: ElapsedView,
    input_size: Option<nat>,
    output_size: Option<nat>,
)
    requires
        !output_exists || config.overwrite,
    ensures
        ({
            let output = resolved_output(config);
            let events = seq![
                EventView::InputChecked { exists: true },
                EventView::EncoderProbed { available: true },
                EventView::OutputChecked { exists: output_exists },
                EventView::EncoderExited { code: Some(0int), elapsed },
                EventView::SizesRead { input: input_size, output: output_size },
            ];
            &&& request_of(config, stage_after(config, events.take(0))) == (
            RequestView::InputExists { path: config.input })
            &&& request_of(config, stage_after(config, events.take(1))) == (
            RequestView::EncoderVersion { args: probe_args() })
            &&& request_of(config, stage_after(config, events.take(2))) == (
            RequestView::OutputExists { path: output })
            &&& request_of(config, stage_after(config, events.take(3))) == (RequestView::Encode {
                notice: announcement(config, output),
                args: encoder_args(config, output),
                show_output: config.verbose,
            })
            &&& request_of(config, stage_after(config, events.take(4))) == (
            RequestView::FileSizes { input: config.input, output })
            &&& request_of(config, stage_after(config, events)) == (RequestView::Succeed {
                report: success_report(output, elapsed, both_sizes(input_size, output_size)),
            })
        }),
{
    let output = resolved_output(config);
    let e0 = EventView::InputChecked { exists: true };
    let e1 = EventView::EncoderProbed { available: true };
    let e2 = EventView::OutputChecked { exists: output_exists };
    let e3 = EventView::EncoderExited { code: Some(0int), elapsed };
    let e4 = EventView::SizesRead { input: input_size, output: output_size };
    let events = seq![e0, e1, e2, e3, e4];
    let none = Seq::<EventView>::empty();
    let s0 = StageView::CheckingInput;
    let s1 = StageView::ProbingEncoder;
    let s2 = StageView::CheckingOutput { output };
    let s3 = StageView::Encoding { output };
    let s4 = StageView::Measuring { output, elapsed };
    assert(events.take(0) =~= none);
    assert(events.take(1) =~= seq![e0] + none);
    assert(events.take(2) =~= seq![e0] + (seq![e1] + none));
    assert(events.take(3) =~= seq![e0] + (seq![e1] + (seq![e2] + none)));
    assert(events.take(4) =~= seq![e0] + (seq![e1] + (seq![e2] + (seq![e3] + none))));
    assert(events =~= seq![e0] + (seq![e1] + (seq![e2] + (seq![e3] + (seq![e4] + none)))));
    lemma_first_step(config, s0, e0, none);
    lemma_first_step(config, s0, e0, seq![e1] + none);
    lemma_first_step(config, s1, e1, none);
    lemma_first_step(config, s0, e0, seq![e1] + (seq![e2] + none));
    lemma_first_step(config, s1, e1, seq![e2] + none);
    lemma_first_step(config, s2, e2, none);
    lemma_first_step(config, s0, e0, seq![e1] + (seq![e2] + (seq![e3] + none)));
    lemma_first_step(config, s1, e1, seq![e2] + (seq![e3] + none));
    lemma_first_step(config, s2, e2, seq![e3] + none);
    lemma_first_step(config, s3, e3, none);
    lemma_first_step(config, s0, e0, seq![e1] + (seq![e2] + (seq![e3] + (seq![e4] + none))));
    lemma_first_step(config, s1, e1, seq![e2] + (seq![e3] + (seq![e4] + none)));
    lemma_first_step(config, s2, e2, seq![e3] + (seq![e4] + none));
    lemma_first_step(config, s3, e3, seq![e4] + none);
    lemma_first_step(config, s4, e4, none);
}

/// Where the input path does not exist, the input check is the only thing
/// done: the conversion fails at once with a message that names the path,
/// the process ends with status 1, and nothing reported later changes that.
pub proof fn lemma_missing_input_fails(config: ConfigView, rest: Seq<EventView>)
    ensures
        request_of(config, StageView::CheckingInput) == (RequestView::InputExists {
            path: config.input,
        }),
        stage_after(config, seq![EventView::InputChecked { exists: false }] + rest) == (
        StageView::Failed { error: ErrorView::InputNotFound { path: config.input } }),
        request_of(
            config,
            stage_after(config, seq![EventView::InputChecked { exists: false }] + rest),
        ) == (RequestView::Fail { error: ErrorView::InputNotFound { path: config.input } }),
        (RequestView::Fail { error: ErrorView::InputNotFound { path: config.input } }).exit_code()
            == Some(1int),
        (ErrorView::InputNotFound { path: config.input }).message() == "Error: File '"@
            + config.input + "' not found"@,
{
    let failed = StageView::Failed { error: ErrorView::InputNotFound { path: config.input } };
    lemma_first_step(
        config,
        StageView::CheckingInput,
        EventView::InputChecked { exists: false },
        rest,
    );
    lemma_final_stage_stays(config, failed, rest);
}

/// Where the encoder does not answer the version query, the conversion
/// fails before anything is converted: the process ends with status 1, and
/// nothing reported later changes that.
pub proof fn lemma_missing_encoder_fails(config: ConfigView, rest: Seq<EventView>)
    ensures
        stage_after(
            config,
            seq![
                EventView::InputChecked { exists: true },
                EventView::EncoderProbed { available: false },
            ] + rest,
        ) == (StageView::Failed { error: ErrorView::EncoderUnavailable }),
        request_of(config, StageView::Failed { error: ErrorView::EncoderUnavailable }).exit_code()
            == Some(1int),
{
    let first = EventView::InputChecked { exists: true };
    let second = EventView::EncoderProbed { available: false };
    let failed = StageView::Failed { error: ErrorView::EncoderUnavailable };
    assert(seq![first, second] + rest =~= seq![first] + (seq![second] + rest));
    lemma_first_step(config, StageView::CheckingInput, first, seq![second] + rest);
    lemma_first_step(config, StageView::ProbingEncoder, second, rest);
    lemma_final_stage_stays(config, failed, rest);
}

/// As long as no version query was answered, the encoder is not run.
pub proof fn lemma_no_encoding_without_encoder(config: ConfigView, events: Seq<EventView>)
    requires
        !events.contains(EventView::EncoderProbed { available: true }),
    ensures
        !(request_of(config, stage_after(config, events)) is Encode),
{
    if request_of(config, stage_after(config, events)) is Encode {
        lemma_encoder_runs_only_after_checks(config, events);
    }
}

/// Where the output path exists and may not be overwritten, the conversion
/// fails without running the encoder: the process ends with status 1, and
/// nothing reported later changes that.
pub proof fn lemma_existing_output_fails(config: ConfigView, rest: Seq<EventView>)
    requires
        !config.overwrite,
    ensures
        stage_after(
            config,
            seq![
                EventView::InputChecked { exists: true },
                EventView::EncoderProbed { available: true },
                EventView::OutputChecked { exists: true },
            ] + rest,
        ) == (StageView::Failed {
            error: ErrorView::OutputExists { path: resolved_output(config) },
        }),
        request_of(
            config,
            StageView::Failed { error: ErrorView::OutputExists { path: resolved_output(config) } },
        ).exit_code() == Some(1int),
{
    let first = EventView::InputChecked { exists: true };
    let second = EventView::EncoderProbed { available: true };
    let third = EventView::OutputChecked { exists: true };
    let output = resolved_output(config);
    let failed = StageView::Failed { error: ErrorView::OutputExists { path: output } };
    assert(seq![first, second, third] + rest =~= seq![first] + (seq![second] + (seq![third]
        + rest)));
    lemma_first_step(config, StageView::CheckingInput, first, seq![second] + (seq![third] + rest));
    lemma_first_step(config, StageView::ProbingEncoder, second, seq![third] + rest);
    lemma_first_step(config, StageView::CheckingOutput { output }, third, rest);
    lemma_final_stage_stays(config, failed, rest);
}

/// As long as the output path was not found free and may not be
/// overwritten, the encoder is not run.
pub proof fn lemma_no_encoding_over_existing_output(config: ConfigView, events: Seq<EventView>)
    requires
        !config.overwrite,
        !events.contains(EventView::OutputChecked { exists: false }),
    ensures
        !(request_of(config, stage_after(config, events)) is Encode),
{
    if request_of(config, stage_after(config, events)) is Encode {
        lemma_encoder_runs_only_after_checks(config, events);
    }
}

/// Where the output path may be overwritten, the encoder is run whether or
/// not the path exists, and is told to overwrite: `-y` stands in its
/// parameter list, right after the input.
pub proof fn lemma_overwrite_is_forced(config: ConfigView, exists: bool)
    requires
        config.overwrite,
    ensures
        request_of(
            config,
            stage_after(
                config,
                seq![
                    EventView::InputChecked { exists: true },
                    EventView::EncoderProbed { available: true },
                    EventView::OutputChecked { exists },
                ],
            ),
        ) == (RequestView::Encode {
            notice: announcement(config, resolved_output(config)),
            args: encoder_args(config, resolved_output(config)),
            show_output: config.verbose,
        }),
        encoder_args(config, resolved_output(config))[2] == "-y"@,
{
    let first = EventView::InputChecked { exists: true };
    let second = EventView::EncoderProbed { available: true };
    let third = EventView::OutputChecked { exists };
    let output = resolved_output(config);
    let none = Seq::<EventView>::empty();
    assert(seq![first, second, third] =~= seq![first] + (seq![second] + (seq![third] + none)));
    lemma_first_step(config, StageView::CheckingInput, first, seq![second] + (seq![third] + none));
    lemma_first_step(config, StageView::ProbingEncoder, second, seq![third] + none);
    lemma_first_step(config, StageView::CheckingOutput { output }, third, none);
}

/// Settles the output path: the one that was asked for, or else the one
/// derived from the input path.
pub fn resolve_output_path(config: &Config) -> (output: String)
    requires
        config@.output is None ==> names_file(config@.input),
    ensures
        output@ == resolved_output(config@),
{
    match &config.output {
        Some(path) => path.clone(),
        None => generate_output_path(config.input.as_str()),
    }
}

impl Stage {
    /// The stage in which every conversion starts.
    pub fn start() -> (stage: Stage)
        ensures
            stage@ == StageView::CheckingInput,
    {
        Stage::CheckingInput
    }
}

impl Request {
    /// The status the process ends with, where the request ends it: 0 after
    /// success, 1 after any failure.
    pub fn exit_code(&self) -> (code: Option<i32>)
        ensures
            code_view(code) == self@.exit_code(),
    {
        match self {
            Request::Succeed { .. } => Some(0),
            Request::Fail { .. } => Some(1),
            _ => None,
        }
    }
}

/// Says what is to be done in `stage`.
pub fn request(config: &Config, stage: &Stage) -> (todo: Request)
    ensures
        todo@ == request_of(config@, stage@),
{
    match stage {
        Stage::CheckingInput => Request::InputExists { path: config.input.clone() },
        Stage::ProbingEncoder => Request::EncoderVersion { args: build_probe_args() },
        Stage::CheckingOutput { output } => Request::OutputExists { path: output.clone() },
        Stage::Encoding { output } => Request::Encode {
            notice: announce(config, output.as_str()),
            args: build_encoder_args(config, output.as_str()),
            show_output: config.verbose,
        },
        Stage::Measuring { output, .. } => Request::FileSizes {
            input: config.input.clone(),
            output: output.clone(),
        },
        Stage::Finished { output, elapsed, sizes } => Request::Succeed {
            report: report_success(output.as_str(), elapsed, *sizes),
        },
        Stage::Failed { error } => Request::Fail { error: error.duplicate() },
    }
}

/// Moves on from `stage` when `event` is reported.
pub fn advance(config: &Config, stage: Stage, event: Event) -> (next: Stage)
    requires
        derives_output(config@, stage@, event@) ==> names_file(config@.input),
    ensures
        next@ == next_stage(config@, stage@, event@),
{
    match stage {
        Stage::CheckingInput => match event {
            Event::InputChecked { exists } => if exists {
                Stage::ProbingEncoder
            } else {
                Stage::Failed { error: ConvertError::InputNotFound { path: config.input.clone() } }
            },
            _ => Stage::CheckingInput,
        },
        Stage::ProbingEncoder => match event {
            Event::EncoderProbed { available } => if available {
                Stage::CheckingOutput { output: resolve_output_path(config) }
            } else {
                Stage::Failed { error: ConvertError::EncoderUnavailable }
            },
            _ => Stage::ProbingEncoder,
        },
        Stage::CheckingOutput { output } => match event {
            Event::OutputChecked { exists } => if exists && !config.overwrite {
                Stage::Failed { error: ConvertError::OutputExists { path: output } }
            } else {
                Stage::Encoding { output }
            },
            _ => Stage::CheckingOutput { output },
        },
        Stage::Encoding { output } => match event {
            Event::EncoderExited { code, elapsed } => match code {
                Some(0) => Stage::Measuring { output, elapsed },
                _ => Stage::Failed { error: ConvertError::EncodingFailure { code } },
            },
            Event::EncoderNotStarted { reason } => Stage::Failed {
                error: ConvertError::LaunchFailure { reason },
            },
            _ => Stage::Encoding { output },
        },
        Stage::Measuring { output, elapsed } => match event {
            Event::SizesRead { input, output: output_size } => {
                let sizes = match (input, output_size) {
                    (Some(a), Some(b)) => Some((a, b)),
                    _ => None,
                };
                Stage::Finished { output, elapsed, sizes }
            },
            _ => Stage::Measuring { output, elapsed },
        },
        Stage::Finished { output, elapsed, sizes } => Stage::Finished { output, elapsed, sizes },
        Stage::Failed { error } => Stage::Failed { error },
    }
}

/// Moves on from `stage` when `event` is reported, wherever that can be
/// done: the one step that cannot is that which has to derive the output
/// path from an input path that names no file, and `None` says so.
pub fn try_advance(config: &Config, stage: Stage, event: Event) -> (next: Option<Stage>)
    ensures
        next is Some <==> (derives_output(config@, stage@, event@) ==> names_file(
            config@.input,
        )),
        next matches Some(reached) ==> reached@ == next_stage(config@, stage@, event@),
{
    let probing = match &stage {
        Stage::ProbingEncoder => true,
        _ => false,
    };
    let found = match &event {
        Event::EncoderProbed { available } => *available,
        _ => false,
    };
    if probing && found && config.output.is_none() && !has_file_name(config.input.as_str()) {
        None
    } else {
        Some(advance(config, stage, event))
    }
}

} // verus!
