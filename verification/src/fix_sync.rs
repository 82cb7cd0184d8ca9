//! Correction of audio drift: the durations of the video and the audio stream
//! are probed, and where they differ the audio is re-encoded at a changed
//! tempo while the video is copied.
use crate::binary64;
use crate::binary64::Binary64;
use crate::command::{CommandLine, Line, FFMPEG, FFPROBE};
use crate::config::Config;
use crate::encoding;
use crate::ieee;
use crate::job::SingleJob;
use crate::path;
use crate::path::FilePath;
use crate::text;
use vstd::arithmetic::div_mod::{lemma_fundamental_div_mod, lemma_mod_bound};
use vstd::arithmetic::power2::{lemma_pow2_adds, lemma_pow2_pos, lemma_pow2_unfold};
use vstd::prelude::*;

verus! {

/// Below this drift, in percent, a correction is not worth it: the double 0.001.
pub const DRIFT_THRESHOLD_PCT: u64 = 0x3F50_624D_D2F1_A9FC;

/// The command that prints one field of `input`. An empty `selector` asks for
/// a field of the container.
pub open spec fn spec_ffprobe(input: Seq<u8>, selector: Seq<char>, entry: Seq<char>) -> Line {
    let base = Line::of(path::bytes_of(FFPROBE@)).texts(seq!["-v", "error"]);
    let selected = if selector.len() == 0 {
        base
    } else {
        base.text("-select_streams"@).text(selector)
    };
    selected.text("-show_entries"@).text(entry).texts(seq!["-of", "default=nk=1:nw=1"]).arg(input)
}

/// The command that prints the field `entry` of the stream `selector` of
/// `input`, or of its container for an empty `selector`.
pub fn ffprobe_field(input: &FilePath, selector: &str, entry: &str) -> (r: CommandLine)
    ensures
        r@ == spec_ffprobe(input@, selector@, entry@),
{
    let mut cmd = CommandLine::new(FilePath::new(FFPROBE));
    cmd.texts(&["-v", "error"]);
    if !selector.is_empty() {
        cmd.text("-select_streams");
        cmd.text(selector);
    }
    cmd.text("-show_entries");
    cmd.text(entry);
    cmd.texts(&["-of", "default=nk=1:nw=1"]);
    cmd.arg(input.as_bytes());
    cmd
}

/// The field in a printed reply: its first line, trimmed, unless that is empty.
pub open spec fn spec_field(reply: Seq<char>) -> Option<Seq<char>> {
    let line = text::spec_trim(text::spec_first_line(reply));
    if line.len() == 0 {
        None
    } else {
        Some(line)
    }
}

/// The field in a printed reply: its first line, trimmed, unless that is empty.
pub fn field_in(reply: &str) -> (r: Option<String>)
    ensures
        match r {
            Some(f) => spec_field(reply@) == Some(f@),
            None => spec_field(reply@) is None,
        },
{
    let line = text::trim(text::first_line(reply));
    if line.is_empty() {
        None
    } else {
        Some(line.to_string())
    }
}

/// The field that a probe printed; none where the probe could not be run.
pub fn field_printed(stdout: Option<&[u8]>) -> (r: Option<String>)
    ensures
        match r {
            Some(f) => stdout matches Some(bytes) && spec_field(encoding::utf8_lossy(bytes@))
                == Some(f@),
            None => stdout matches Some(bytes) ==> spec_field(encoding::utf8_lossy(bytes@)) is None,
        },
        stdout matches Some(bytes) && vstd::utf8::valid_utf8(bytes@) ==> text::opt_text(r)
            == spec_field(vstd::utf8::decode_utf8(stdout->0@)),
{
    match stdout {
        Some(bytes) => field_in(encoding::lossy(bytes).as_str()),
        None => None,
    }
}

/// The hours, minutes and seconds in a text like `HH:MM:SS.mmm`: what stands
/// before the first colon, between the first two, and after the second.
pub open spec fn spec_hms(s: Seq<char>) -> Option<Seq<Seq<char>>> {
    match text::spec_split_once(s, ':') {
        Some((h, rest)) => match text::spec_split_once(rest, ':') {
            Some((m, sec)) => Some(seq![h, m, sec]),
            None => None,
        },
        None => None,
    }
}

/// The numerator and the denominator in a text like `1/1000`.
pub open spec fn spec_time_base(tb: Seq<char>) -> Option<Seq<Seq<char>>> {
    match text::spec_split_once(tb, '/') {
        Some((num, den)) => Some(seq![num, den]),
        None => None,
    }
}

/// The texts behind a list of strings.
pub open spec fn string_views(list: Seq<String>) -> Seq<Seq<char>> {
    list.map_values(|s: String| s@)
}

/// The hours, minutes and seconds in a text like `HH:MM:SS.mmm`, still as
/// texts. `None` for a text with fewer than two colons, such as `N/A`.
pub fn parse_hms(s: &str) -> (r: Option<Vec<String>>)
    ensures
        match r {
            Some(list) => spec_hms(s@) == Some(string_views(list@)),
            None => spec_hms(s@) is None,
        },
{
    match text::split_once(s, ':') {
        Some((h, rest)) => match text::split_once(rest, ':') {
            Some((m, sec)) => {
                let mut out: Vec<String> = Vec::new();
                out.push(h.to_string());
                out.push(m.to_string());
                out.push(sec.to_string());
                assert(string_views(out@) =~= seq![h@, m@, sec@]);
                Some(out)
            },
            None => None,
        },
        None => None,
    }
}

/// The numerator and the denominator in a text like `1/1000`, still as texts.
pub fn parse_time_base(tb: &str) -> (r: Option<Vec<String>>)
    ensures
        match r {
            Some(list) => spec_time_base(tb@) == Some(string_views(list@)),
            None => spec_time_base(tb@) is None,
        },
{
    match text::split_once(tb, '/') {
        Some((num, den)) => {
            let mut out: Vec<String> = Vec::new();
            out.push(num.to_string());
            out.push(den.to_string());
            assert(string_views(out@) =~= seq![num@, den@]);
            Some(out)
        },
        None => None,
    }
}

/// Where a stream's duration is looked for next.
#[derive(Clone, Copy, Debug, PartialEq)]
pub enum Probe {
    /// The duration of the stream.
    Duration,
    /// The duration tag of the stream, as hours, minutes and seconds.
    Tag,
    /// The duration of the stream in ticks.
    Ticks,
    /// The length of a tick, once the number of ticks is known.
    TimeBase { ticks: Binary64 },
    /// The duration of the container.
    Format,
}

/// How the search for a duration goes on.
#[derive(Clone, Copy, Debug, PartialEq)]
pub enum Search {
    Next(Probe),
    /// The duration, in seconds.
    Found(Binary64),
    Unknown,
}

impl Probe {
    /// The field that is asked for.
    pub open spec fn spec_entry(self) -> Seq<char> {
        match self {
            Probe::Duration => "stream=duration"@,
            Probe::Tag => "stream_tags=DURATION"@,
            Probe::Ticks => "stream=duration_ts"@,
            Probe::TimeBase { .. } => "stream=time_base"@,
            Probe::Format => "format=duration"@,
        }
    }

    /// The texts in a field that have to be numbers.
    pub open spec fn spec_pieces(self, field: Seq<char>) -> Option<Seq<Seq<char>>> {
        match self {
            Probe::Tag => spec_hms(field),
            Probe::TimeBase { .. } => spec_time_base(field),
            _ => Some(seq![field]),
        }
    }

    /// How many numbers a field holds.
    pub open spec fn arity(self) -> nat {
        match self {
            Probe::Tag => 3,
            Probe::TimeBase { .. } => 2,
            _ => 1,
        }
    }

    /// The command that asks `input` for this field of the stream `selector`.
    pub fn query(self, input: &FilePath, selector: &str) -> (r: CommandLine)
        ensures
            r@ == spec_ffprobe(
                input@,
                if self is Format {
                    Seq::empty()
                } else {
                    selector@
                },
                self.spec_entry(),
            ),
    {
        match self {
            Probe::Duration => ffprobe_field(input, selector, "stream=duration"),
            Probe::Tag => ffprobe_field(input, selector, "stream_tags=DURATION"),
            Probe::Ticks => ffprobe_field(input, selector, "stream=duration_ts"),
            Probe::TimeBase { .. } => ffprobe_field(input, selector, "stream=time_base"),
            Probe::Format => {
                proof {
                    reveal_strlit("");
                    assert(""@ =~= Seq::<char>::empty());
                }
                ffprobe_field(input, "", "format=duration")
            },
        }
    }

    /// The texts in a field that have to be numbers.
    pub fn pieces(self, field: &str) -> (r: Option<Vec<String>>)
        ensures
            match r {
                Some(list) => self.spec_pieces(field@) == Some(string_views(list@)) && list@.len()
                    == self.arity(),
                None => self.spec_pieces(field@) is None,
            },
    {
        match self {
            Probe::Tag => {
                let r = parse_hms(field);
                assert(r is Some ==> string_views(r->0@).len() == r->0@.len());
                r
            },
            Probe::TimeBase { .. } => {
                let r = parse_time_base(field);
                assert(r is Some ==> string_views(r->0@).len() == r->0@.len());
                r
            },
            _ => {
                let mut out: Vec<String> = Vec::new();
                out.push(field.to_string());
                assert(string_views(out@) =~= seq![field@]);
                Some(out)
            },
        }
    }
}

/// The seconds in hours, minutes and seconds.
pub open spec fn spec_clock(h: Binary64, m: Binary64, sec: Binary64) -> Binary64 {
    h.spec_product(Binary64 { bits: ieee::HOUR }).spec_sum(
        m.spec_product(Binary64 { bits: ieee::MINUTE }),
    ).spec_sum(sec)
}

/// How the search goes on from `probe` when its field held `numbers`; `None`
/// stands for a field that is missing or not numeric.
pub open spec fn spec_stream_duration(probe: Probe, numbers: Option<Seq<Binary64>>) -> Search {
    match probe {
        Probe::Duration => match numbers {
            Some(n) => Search::Found(n[0]),
            None => Search::Next(Probe::Tag),
        },
        Probe::Tag => match numbers {
            Some(n) => Search::Found(spec_clock(n[0], n[1], n[2])),
            None => Search::Next(Probe::Ticks),
        },
        Probe::Ticks => match numbers {
            Some(n) => Search::Next(Probe::TimeBase { ticks: n[0] }),
            None => Search::Next(Probe::Format),
        },
        Probe::TimeBase { ticks } => match numbers {
            Some(n) => if n[1].magnitude() == 0 {
                Search::Next(Probe::Format)
            } else {
                Search::Found(ticks.spec_product(n[0]).spec_quotient(n[1]))
            },
            None => Search::Next(Probe::Format),
        },
        Probe::Format => match numbers {
            Some(n) => Search::Found(n[0]),
            None => Search::Unknown,
        },
    }
}

/// The numbers behind an optional list.
pub open spec fn opt_numbers(numbers: Option<Vec<Binary64>>) -> Option<Seq<Binary64>> {
    match numbers {
        Some(v) => Some(v@),
        None => None,
    }
}

/// How the search for a stream's duration goes on from `probe`, whose field
/// held `numbers` (`None`: it was missing or not numeric). A time base with a
/// zero denominator is of no use.
pub fn stream_duration_secs(probe: Probe, numbers: &Option<Vec<Binary64>>) -> (r: Search)
    requires
        numbers matches Some(v) ==> v@.len() == probe.arity(),
    ensures
        r == spec_stream_duration(probe, opt_numbers(*numbers)),
{
    match numbers {
        Some(n) => match probe {
            Probe::Duration => Search::Found(n[0]),
            Probe::Tag => Search::Found(
                n[0].times(Binary64::from_bits(ieee::HOUR)).plus(
                    n[1].times(Binary64::from_bits(ieee::MINUTE)),
                ).plus(n[2]),
            ),
            Probe::Ticks => Search::Next(Probe::TimeBase { ticks: n[0] }),
            Probe::TimeBase { ticks } => if n[1].is_zero() {
                Search::Next(Probe::Format)
            } else {
                Search::Found(ticks.times(n[0]).divided_by(n[1]))
            },
            Probe::Format => Search::Found(n[0]),
        },
        None => match probe {
            Probe::Duration => Search::Next(Probe::Tag),
            Probe::Tag => Search::Next(Probe::Ticks),
            Probe::Ticks => Search::Next(Probe::Format),
            Probe::TimeBase { .. } => Search::Next(Probe::Format),
            Probe::Format => Search::Unknown,
        },
    }
}

/// The numbers that each field of a stream and its container holds.
pub struct Fields {
    pub duration: Option<Seq<Binary64>>,
    pub tag: Option<Seq<Binary64>>,
    pub ticks: Option<Seq<Binary64>>,
    pub time_base: Option<Seq<Binary64>>,
    pub format: Option<Seq<Binary64>>,
}

impl Fields {
    /// The numbers in the field that `probe` asks for.
    pub open spec fn of(self, probe: Probe) -> Option<Seq<Binary64>> {
        match probe {
            Probe::Duration => self.duration,
            Probe::Tag => self.tag,
            Probe::Ticks => self.ticks,
            Probe::TimeBase { .. } => self.time_base,
            Probe::Format => self.format,
        }
    }
}

/// The search from `probe` on, for at most `fuel` fields.
pub open spec fn run_search(probe: Probe, fields: Fields, fuel: nat) -> Search
    decreases fuel,
{
    if fuel == 0 {
        Search::Next(probe)
    } else {
        match spec_stream_duration(probe, fields.of(probe)) {
            Search::Next(next) => run_search(next, fields, (fuel - 1) as nat),
            done => done,
        }
    }
}

/// The search ends after five fields at most, and takes the first source that
/// is usable: the duration of the stream, its duration tag, its ticks times
/// the length of a tick, and last the duration of the container.
pub proof fn law_duration_fallback(fields: Fields)
    ensures
        run_search(Probe::Duration, fields, 5) == (match fields.duration {
            Some(n) => Search::Found(n[0]),
            None => match fields.tag {
                Some(n) => Search::Found(spec_clock(n[0], n[1], n[2])),
                None => if fields.ticks is Some && fields.time_base is Some
                    && fields.time_base->0[1].magnitude() != 0 {
                    Search::Found(
                        fields.ticks->0[0].spec_product(fields.time_base->0[0]).spec_quotient(
                            fields.time_base->0[1],
                        ),
                    )
                } else {
                    match fields.format {
                        Some(n) => Search::Found(n[0]),
                        None => Search::Unknown,
                    }
                },
            },
        }),
{
    reveal_with_fuel(run_search, 6);
}

/// The tempo change: the audio duration divided by the video duration, or
/// none for a video duration that is not positive.
pub open spec fn spec_tempo(v_dur: Binary64, a_dur: Binary64) -> Binary64 {
    if !v_dur.is_nan() && v_dur.value() <= 0 {
        Binary64 { bits: ieee::UNITY }
    } else {
        a_dur.spec_quotient(v_dur)
    }
}

/// The tempo change: the audio duration divided by the video duration. A video
/// duration that is not positive asks for no change.
pub fn compute_tempo(v_dur: Binary64, a_dur: Binary64) -> (r: Binary64)
    ensures
        r == spec_tempo(v_dur, a_dur),
{
    if !v_dur.not_a_number() && !v_dur.is_positive() {
        Binary64::from_bits(ieee::UNITY)
    } else {
        a_dur.divided_by(v_dur)
    }
}

/// How far a tempo is from 1, in percent.
pub open spec fn spec_drift(tempo: Binary64) -> Binary64 {
    tempo.spec_sum(Binary64 { bits: ieee::UNITY }.spec_negated()).spec_absolute().spec_product(
        Binary64 { bits: ieee::HUNDRED },
    )
}

/// How far a tempo is from 1, in percent.
pub fn drift_pct(tempo: Binary64) -> (r: Binary64)
    ensures
        r == spec_drift(tempo),
{
    tempo.plus(Binary64::from_bits(ieee::UNITY).negated()).absolute().times(
        Binary64::from_bits(ieee::HUNDRED),
    )
}

/// Whether the drift of a tempo is too small to be corrected.
pub open spec fn negligible(tempo: Binary64) -> bool {
    spec_drift(tempo).spec_less(Binary64 { bits: DRIFT_THRESHOLD_PCT })
}

/// Whether the drift of a tempo is too small to be corrected.
pub fn is_negligible(tempo: Binary64) -> (r: bool)
    ensures
        r == negligible(tempo),
{
    drift_pct(tempo).less(Binary64::from_bits(DRIFT_THRESHOLD_PCT))
}

/// Why a correction cannot be started.
#[derive(Clone, Copy, Debug, PartialEq, Eq, Structural)]
pub enum FixSyncError {
    FfprobeNotFound,
    FfmpegNotFound,
    InputNotFound,
    NoVideoDuration,
    NoAudioDuration,
}

impl FixSyncError {
    /// What the user is told, with the input shown as `shown`.
    pub open spec fn spec_message(self, shown: Seq<char>) -> Seq<char> {
        match self {
            FixSyncError::FfprobeNotFound => "ffprobe"@ + " not found: "@ + FFPROBE@,
            FixSyncError::FfmpegNotFound => "ffmpeg"@ + " not found: "@ + FFMPEG@,
            FixSyncError::InputNotFound => "input"@ + " not found: "@ + shown,
            FixSyncError::NoVideoDuration => "could not determine video duration"@,
            FixSyncError::NoAudioDuration => "could not determine audio duration"@,
        }
    }

    /// What the user is told, with the input shown as `shown`.
    pub fn message_showing(self, shown: &str) -> (r: String)
        ensures
            r@ == self.spec_message(shown@),
    {
        match self {
            FixSyncError::FfprobeNotFound => encoding::not_found("ffprobe", FFPROBE),
            FixSyncError::FfmpegNotFound => encoding::not_found("ffmpeg", FFMPEG),
            FixSyncError::InputNotFound => encoding::not_found("input", shown),
            FixSyncError::NoVideoDuration => "could not determine video duration".to_string(),
            FixSyncError::NoAudioDuration => "could not determine audio duration".to_string(),
        }
    }

    /// What the user is told about `input`.
    pub fn message(self, input: &FilePath) -> (r: String)
        ensures
            r@ == self.spec_message(encoding::utf8_lossy(input@)),
            vstd::utf8::valid_utf8(input@) ==> r@ == self.spec_message(
                vstd::utf8::decode_utf8(input@),
            ),
    {
        self.message_showing(encoding::lossy(input.as_bytes()).as_str())
    }
}

/// What has to be found out next before a correction can be started.
#[derive(Clone, Copy, Debug, PartialEq)]
pub enum Stage {
    /// Whether `ffprobe` is a file.
    Ffprobe,
    /// Whether `ffmpeg` is a file.
    Ffmpeg,
    /// Whether the input is a file.
    Input,
    /// The duration of the stream `v:0`.
    Video,
    /// The duration of the stream `a:0`.
    Audio { v_dur: Binary64 },
}

/// What the caller has to find out for a stage.
#[derive(Debug, PartialEq, Eq)]
pub enum Task {
    /// Whether this is a file.
    IsFile(FilePath),
    /// The duration of this stream of the input.
    DurationOf(&'static str),
}

/// What the caller has to find out for `stage`: whether the tools and the
/// input are files, then the duration of the first video stream and that of
/// the first audio stream.
pub fn task(stage: Stage, input: &FilePath) -> (r: Task)
    ensures
        match stage {
            Stage::Ffprobe => r matches Task::IsFile(p) && p@ == path::bytes_of(FFPROBE@),
            Stage::Ffmpeg => r matches Task::IsFile(p) && p@ == path::bytes_of(FFMPEG@),
            Stage::Input => r matches Task::IsFile(p) && p@ == input@,
            Stage::Video => r matches Task::DurationOf(selector) && selector@ == "v:0"@,
            Stage::Audio { .. } => r matches Task::DurationOf(selector) && selector@ == "a:0"@,
        },
{
    match stage {
        Stage::Ffprobe => Task::IsFile(FilePath::new(FFPROBE)),
        Stage::Ffmpeg => Task::IsFile(FilePath::new(FFMPEG)),
        Stage::Input => Task::IsFile(input.copy()),
        Stage::Video => Task::DurationOf("v:0"),
        Stage::Audio { .. } => Task::DurationOf("a:0"),
    }
}

/// What was found out.
#[derive(Clone, Copy, Debug, PartialEq)]
pub enum Event {
    Present(bool),
    Duration(Option<Binary64>),
}

/// How the launch goes on. `J` is the job to start, or in specifications the
/// tempo that it corrects.
#[derive(Debug, PartialEq)]
pub enum Outcome<J> {
    Next(Stage),
    Failed(FixSyncError),
    /// The drift is negligible: there is nothing to start.
    NothingToDo,
    Start(J),
}

/// How the launch goes on once `stage` has been answered with `event`. An
/// event of the other kind counts as a negative answer.
pub open spec fn spec_launch(stage: Stage, event: Event) -> Outcome<Binary64> {
    match (stage, event) {
        (Stage::Ffprobe, Event::Present(true)) => Outcome::Next(Stage::Ffmpeg),
        (Stage::Ffprobe, _) => Outcome::Failed(FixSyncError::FfprobeNotFound),
        (Stage::Ffmpeg, Event::Present(true)) => Outcome::Next(Stage::Input),
        (Stage::Ffmpeg, _) => Outcome::Failed(FixSyncError::FfmpegNotFound),
        (Stage::Input, Event::Present(true)) => Outcome::Next(Stage::Video),
        (Stage::Input, _) => Outcome::Failed(FixSyncError::InputNotFound),
        (Stage::Video, Event::Duration(Some(v_dur))) => Outcome::Next(Stage::Audio { v_dur }),
        (Stage::Video, _) => Outcome::Failed(FixSyncError::NoVideoDuration),
        (Stage::Audio { v_dur }, Event::Duration(Some(a_dur))) => if negligible(
            spec_tempo(v_dur, a_dur),
        ) {
            Outcome::NothingToDo
        } else {
            Outcome::Start(spec_tempo(v_dur, a_dur))
        },
        (Stage::Audio { .. }, _) => Outcome::Failed(FixSyncError::NoAudioDuration),
    }
}

/// Whether there is a filter chain for a tempo: for any but positive infinity.
pub open spec fn has_chain(tempo: Binary64) -> bool {
    tempo.is_infinite() ==> tempo.negative()
}

/// The command that re-encodes the audio of `input` at `tempo` into `output`
/// and copies the video.
pub open spec fn spec_correction(input: Seq<u8>, output: Seq<u8>, tempo: Binary64) -> Line {
    Line::of(path::bytes_of(FFMPEG@)).texts(seq!["-y", "-i"]).arg(input).texts(
        seq!["-map", "0:v:0", "-map", "0:a:0", "-c:v", "copy", "-af"],
    ).text(spec_atempo_chain(tempo) + ",aresample=async=1:first_pts=0"@).texts(
        seq!["-c:a", "aac", "-b:a", "192k"],
    ).arg(output)
}

/// The command that re-encodes the audio of `input` at `tempo` into `output`
/// and copies the video.
pub fn correction(input: &FilePath, output: &FilePath, tempo: Binary64) -> (r: CommandLine)
    requires
        has_chain(tempo),
    ensures
        r@ == spec_correction(input@, output@, tempo),
{
    let mut cmd = CommandLine::new(FilePath::new(FFMPEG));
    cmd.texts(&["-y", "-i"]);
    cmd.arg(input.as_bytes());
    cmd.texts(&["-map", "0:v:0", "-map", "0:a:0", "-c:v", "copy", "-af"]);
    let mut filter = build_atempo_chain(tempo);
    filter.append(",aresample=async=1:first_pts=0");
    cmd.text(filter.as_str());
    cmd.texts(&["-c:a", "aac", "-b:a", "192k"]);
    cmd.arg(output.as_bytes());
    cmd
}

/// Takes what `stage` asked and was answered, and says what to find out next,
/// why the correction cannot be started, that there is nothing to correct, or
/// which job to start. Nothing is started before everything is known.
pub fn launch(
    stage: Stage,
    event: Event,
    input: &FilePath,
    output: &FilePath,
    cfg: &Config,
    label: &str,
) -> (r: Outcome<SingleJob>)
    requires
        spec_launch(stage, event) matches Outcome::Start(tempo) ==> has_chain(tempo),
    ensures
        match spec_launch(stage, event) {
            Outcome::Next(next) => r == Outcome::<SingleJob>::Next(next),
            Outcome::Failed(error) => r == Outcome::<SingleJob>::Failed(error),
            Outcome::NothingToDo => r == Outcome::<SingleJob>::NothingToDo,
            Outcome::Start(tempo) => {
                &&& r matches Outcome::Start(job)
                &&& job.label@ == label@
                &&& job.input@ == input@
                &&& job.command@ == spec_correction(input@, output@, tempo)
                &&& job.log_dir@ == path::spec_join(cfg.videos_dir@, path::bytes_of("logs"@))
            },
        },
{
    match (stage, event) {
        (Stage::Ffprobe, Event::Present(true)) => Outcome::Next(Stage::Ffmpeg),
        (Stage::Ffprobe, _) => Outcome::Failed(FixSyncError::FfprobeNotFound),
        (Stage::Ffmpeg, Event::Present(true)) => Outcome::Next(Stage::Input),
        (Stage::Ffmpeg, _) => Outcome::Failed(FixSyncError::FfmpegNotFound),
        (Stage::Input, Event::Present(true)) => Outcome::Next(Stage::Video),
        (Stage::Input, _) => Outcome::Failed(FixSyncError::InputNotFound),
        (Stage::Video, Event::Duration(Some(v_dur))) => Outcome::Next(Stage::Audio { v_dur }),
        (Stage::Video, _) => Outcome::Failed(FixSyncError::NoVideoDuration),
        (Stage::Audio { v_dur }, Event::Duration(Some(a_dur))) => {
            let tempo = compute_tempo(v_dur, a_dur);
            if is_negligible(tempo) {
                Outcome::NothingToDo
            } else {
                Outcome::Start(
                    SingleJob {
                        label: label.to_string(),
                        input: input.copy(),
                        command: correction(input, output, tempo),
                        log_dir: cfg.log_dir(),
                    },
                )
            }
        },
        (Stage::Audio { .. }, _) => Outcome::Failed(FixSyncError::NoAudioDuration),
    }
}

/// What the stages of a launch ask about.
pub struct Facts {
    pub ffprobe_present: bool,
    pub ffmpeg_present: bool,
    pub input_present: bool,
    pub v_dur: Option<Binary64>,
    pub a_dur: Option<Binary64>,
}

/// The answer that the facts give to `stage`.
pub open spec fn event_of(stage: Stage, facts: Facts) -> Event {
    match stage {
        Stage::Ffprobe => Event::Present(facts.ffprobe_present),
        Stage::Ffmpeg => Event::Present(facts.ffmpeg_present),
        Stage::Input => Event::Present(facts.input_present),
        Stage::Video => Event::Duration(facts.v_dur),
        Stage::Audio { .. } => Event::Duration(facts.a_dur),
    }
}

/// The launch from `stage` on, for at most `fuel` answers.
pub open spec fn run_launch(stage: Stage, facts: Facts, fuel: nat) -> Outcome<Binary64>
    decreases fuel,
{
    if fuel == 0 {
        Outcome::Next(stage)
    } else {
        match spec_launch(stage, event_of(stage, facts)) {
            Outcome::Next(next) => run_launch(next, facts, (fuel - 1) as nat),
            done => done,
        }
    }
}

/// A launch ends after five answers at most. It reports the first of these
/// that is missing: `ffprobe`, `ffmpeg`, the input, the video duration, the
/// audio duration. Otherwise it starts a job exactly when the drift is not
/// below the threshold, and the job corrects the tempo.
pub proof fn law_launch_decides(facts: Facts)
    ensures
        run_launch(Stage::Ffprobe, facts, 5) == (if !facts.ffprobe_present {
            Outcome::Failed(FixSyncError::FfprobeNotFound)
        } else if !facts.ffmpeg_present {
            Outcome::Failed(FixSyncError::FfmpegNotFound)
        } else if !facts.input_present {
            Outcome::Failed(FixSyncError::InputNotFound)
        } else if facts.v_dur is None {
            Outcome::Failed(FixSyncError::NoVideoDuration)
        } else if facts.a_dur is None {
            Outcome::Failed(FixSyncError::NoAudioDuration)
        } else if negligible(spec_tempo(facts.v_dur->0, facts.a_dur->0)) {
            Outcome::NothingToDo
        } else {
            Outcome::Start(spec_tempo(facts.v_dur->0, facts.a_dur->0))
        }),
{
    reveal_with_fuel(run_launch, 6);
}

/// A tempo of 1 has no drift.
proof fn lemma_unity_is_negligible()
    ensures
        negligible(Binary64 { bits: ieee::UNITY }),
{
    let unity = Binary64 { bits: ieee::UNITY };
    let minus = unity.spec_negated();
    let hundred = Binary64 { bits: ieee::HUNDRED };
    let threshold = Binary64 { bits: DRIFT_THRESHOLD_PCT };
    let zero = Binary64 { bits: 0 };
    assert(unity.exponent() == 1023 && unity.fraction() == 0);
    assert(minus.exponent() == 1023 && minus.fraction() == 0 && minus.negative());
    assert(hundred.exponent() < 2047 && threshold.exponent() < 2047 && !threshold.negative());
    assert(unity.spec_sum(minus) == zero);
    assert(zero.exponent() == 0 && zero.magnitude() == 0);
    assert(0 * hundred.magnitude() == 0);
    lemma_pow2_pos(1074);
    ieee::law_doubles_are_kept(0, binary64::one());
    assert(binary64::one() * 0 == 0);
    assert(zero.spec_absolute() == zero);
    assert(zero.spec_product(hundred) == zero);
    binary64::lemma_magnitude_zero(threshold);
}

/// Streams of one length need no correction, and neither does an input whose
/// video duration is not positive: nothing is started for them.
pub proof fn law_equal_durations_need_nothing(v_dur: Binary64, a_dur: Binary64)
    requires
        v_dur.is_finite(),
        v_dur == a_dur || v_dur.value() <= 0,
    ensures
        spec_tempo(v_dur, a_dur) == (Binary64 { bits: ieee::UNITY }),
        spec_launch(Stage::Audio { v_dur }, Event::Duration(Some(a_dur))) is NothingToDo,
{
    lemma_unity_is_negligible();
    if v_dur.value() > 0 {
        let unity = Binary64 { bits: ieee::UNITY };
        let d = v_dur.magnitude();
        ieee::law_doubles_are_kept(ieee::UNITY as nat, d);
        vstd::arithmetic::power2::lemma2_to64_rest();
        lemma_pow2_adds(52, 1022);
        assert(binary64::magnitude_at(ieee::UNITY as nat) == binary64::one());
    }
}

/// One factor of a tempo change, in the units of `Binary64`.
pub enum Factor {
    Two,
    Half,
    Rest(nat),
}

impl Factor {
    /// The factor in units.
    pub open spec fn units(self) -> nat {
        match self {
            Factor::Two => 2 * binary64::one(),
            Factor::Half => binary64::one() / 2,
            Factor::Rest(u) => u,
        }
    }

    /// The filter that applies the factor.
    pub open spec fn filter(self) -> Seq<char> {
        match self {
            Factor::Two => "atempo=2.0"@,
            Factor::Half => "atempo=0.5"@,
            Factor::Rest(u) => "atempo="@ + binary64::fixed_text(
                binary64::spec_rounded(u, 100_000_000),
                100_000_000,
                8,
            ),
        }
    }
}

/// The factors that a tempo of `u` units is split into: as many doublings or
/// halvings as it takes until the rest is at least one half and at most two.
pub open spec fn factors(u: nat) -> Seq<Factor>
    decreases
            (if u > 2 * binary64::one() {
                u
            } else {
                (2 * binary64::one() - u) as nat
            }),
    via factors_decreases
{
    if u > 2 * binary64::one() {
        seq![Factor::Two] + factors(u / 2)
    } else if 0 < u < binary64::one() / 2 {
        seq![Factor::Half] + factors(2 * u)
    } else {
        seq![Factor::Rest(u)]
    }
}

#[via_fn]
proof fn factors_decreases(u: nat) {
    lemma_pow2_pos(1074);
}

/// The filters of a list of factors, separated by commas.
pub open spec fn filters(list: Seq<Factor>) -> Seq<char>
    decreases list.len(),
{
    if list.len() == 0 {
        Seq::empty()
    } else if list.len() == 1 {
        list[0].filter()
    } else {
        list[0].filter() + ","@ + filters(list.drop_first())
    }
}

/// The filter chain for a tempo: nothing to change for a tempo that is not
/// positive, else its factors.
pub open spec fn spec_atempo_chain(tempo: Binary64) -> Seq<char> {
    if tempo.is_nan() {
        "atempo=NaN"@
    } else if tempo.value() <= 0 {
        "atempo=1.0"@
    } else {
        filters(factors(tempo.magnitude()))
    }
}

/// Halving and doubling in terms of the fields of a double.
proof fn lemma_scale(e: nat, f: nat)
    requires
        f < 0x10_0000_0000_0000,
    ensures
        e >= 2 ==> binary64::magnitude_of(e, f) == 2 * binary64::magnitude_of((e - 1) as nat, f),
        e >= 1 ==> binary64::magnitude_of(e + 1, f) == 2 * binary64::magnitude_of(e, f),
        f < 0x8_0000_0000_0000 ==> binary64::magnitude_of(0, 2 * f) == 2 * binary64::magnitude_of(
            0,
            f,
        ),
        f >= 0x8_0000_0000_0000 ==> binary64::magnitude_of(
            1,
            (2 * f - 0x10_0000_0000_0000) as nat,
        ) == 2 * binary64::magnitude_of(0, f),
{
    vstd::arithmetic::power2::lemma2_to64();
    let m = 0x10_0000_0000_0000 + f;
    if e >= 2 {
        lemma_pow2_unfold((e - 1) as nat);
        let p = vstd::arithmetic::power2::pow2((e - 2) as nat);
        assert(m * (2 * p) == 2 * (m * p)) by (nonlinear_arith);
    }
    if e >= 1 {
        lemma_pow2_unfold(e);
        let p = vstd::arithmetic::power2::pow2((e - 1) as nat);
        assert(m * (2 * p) == 2 * (m * p)) by (nonlinear_arith);
    }
}

/// How a magnitude compares with two and with one half, by its fields.
proof fn lemma_bounds(e: nat, f: nat)
    requires
        f < 0x10_0000_0000_0000,
        e < 2047,
    ensures
        binary64::magnitude_of(e, f) > 2 * binary64::one() <==> (e > 1024 || (e == 1024 && f > 0)),
        binary64::magnitude_of(e, f) < binary64::one() / 2 <==> e < 1022,
        binary64::one() % 2 == 0,
{
    let two = Binary64 { bits: 0x4000_0000_0000_0000 };
    let half = Binary64 { bits: 0x3FE0_0000_0000_0000 };
    vstd::arithmetic::power2::lemma2_to64_rest();
    lemma_pow2_adds(52, 1023);
    lemma_pow2_adds(52, 1021);
    lemma_pow2_unfold(1075);
    lemma_pow2_unfold(1074);
    assert(two.exponent() == 1024 && two.fraction() == 0);
    assert(half.exponent() == 1022 && half.fraction() == 0);
    assert(two.magnitude() == 2 * binary64::one());
    assert(half.magnitude() == binary64::one() / 2);
    let bits = e * 0x10_0000_0000_0000 + f;
    let x = Binary64 { bits: bits as u64 };
    assert(x.abs_bits() == bits);
    assert(x.exponent() == e && x.fraction() == f);
    if bits < two.abs_bits() {
        binary64::lemma_magnitude_order(x, two);
    }
    if bits > two.abs_bits() {
        binary64::lemma_magnitude_order(two, x);
    }
    if bits < half.abs_bits() {
        binary64::lemma_magnitude_order(x, half);
    }
    if bits > half.abs_bits() {
        binary64::lemma_magnitude_order(half, x);
    }
}

/// The filter chain that changes the tempo by `tempo`. A single `atempo`
/// filter takes factors from one half to two only, so that a tempo beyond
/// that range is split into several.
pub fn build_atempo_chain(tempo: Binary64) -> (r: String)
    requires
        has_chain(tempo),
    ensures
        r@ == spec_atempo_chain(tempo),
{
    if tempo.not_a_number() {
        return "atempo=NaN".to_string();
    }
    let abs: u64 = tempo.bits % 0x8000_0000_0000_0000;
    proof {
        binary64::lemma_magnitude_zero(tempo);
    }
    if tempo.bits >= 0x8000_0000_0000_0000 || abs == 0 {
        return "atempo=1.0".to_string();
    }
    let mut e: u64 = abs / 0x10_0000_0000_0000;
    let mut f: u64 = abs % 0x10_0000_0000_0000;
    let ghost all = factors(tempo.magnitude());
    let mut out = String::new();
    proof {
        assert(out@ + filters(all) =~= filters(all));
    }
    while e > 1024 || (e == 1024 && f > 0)
        invariant
            e < 2047,
            f < 0x10_0000_0000_0000,
            binary64::magnitude_of(e as nat, f as nat) > 0,
            out@ + filters(factors(binary64::magnitude_of(e as nat, f as nat))) == filters(all),
        decreases e,
    {
        let ghost before = out@;
        let ghost u = binary64::magnitude_of(e as nat, f as nat);
        out.append("atempo=2.0");
        out.append(",");
        e -= 1;
        proof {
            lemma_bounds((e + 1) as nat, f as nat);
            lemma_scale((e + 1) as nat, f as nat);
            let rest = factors(u / 2);
            assert(factors(u).drop_first() =~= rest);
            lemma_factors_nonempty(u / 2);
            assert(out@ + filters(rest) =~= before + ("atempo=2.0"@ + ","@ + filters(rest)));
        }
    }
    while e < 1022
        invariant
            e < 2047,
            f < 0x10_0000_0000_0000,
            !(e > 1024 || (e == 1024 && f > 0)),
            binary64::magnitude_of(e as nat, f as nat) > 0,
            out@ + filters(factors(binary64::magnitude_of(e as nat, f as nat))) == filters(all),
        decreases 1023 - e, 0x10_0000_0000_0000 - f,
    {
        let ghost before = out@;
        let ghost u = binary64::magnitude_of(e as nat, f as nat);
        proof {
            lemma_bounds(e as nat, f as nat);
            lemma_scale(e as nat, f as nat);
        }
        out.append("atempo=0.5");
        out.append(",");
        if e > 0 {
            e += 1;
        } else if f < 0x8_0000_0000_0000 {
            f = 2 * f;
        } else {
            e = 1;
            f = 2 * f - 0x10_0000_0000_0000;
        }
        proof {
            let rest = factors(2 * u);
            assert(factors(u).drop_first() =~= rest);
            lemma_factors_nonempty(2 * u);
            assert(out@ + filters(rest) =~= before + ("atempo=0.5"@ + ","@ + filters(rest)));
        }
    }
    proof {
        lemma_bounds(e as nat, f as nat);
    }
    let n: u128 = binary64::rounded(e, f, 100_000_000);
    let ghost before = out@;
    out.append("atempo=");
    out.append(binary64::fixed(n, 100_000_000, 8).as_str());
    proof {
        let u = binary64::magnitude_of(e as nat, f as nat);
        assert(factors(u) =~= seq![Factor::Rest(u)]);
        assert(out@ =~= before + Factor::Rest(u).filter());
    }
    out
}

/// There is always at least one factor.
proof fn lemma_factors_nonempty(u: nat)
    ensures
        factors(u).len() > 0,
{
}

/// Every factor of a positive tempo lies within what one `atempo` filter
/// takes: from one half to two.
pub proof fn law_factors_in_range(u: nat)
    requires
        u > 0,
    ensures
        forall|i: int|
            0 <= i < factors(u).len() ==> binary64::one() / 2 <= (
            #[trigger] factors(u)[i]).units() <= 2 * binary64::one(),
    decreases
            (if u > 2 * binary64::one() {
                u
            } else {
                (2 * binary64::one() - u) as nat
            }),
{
    lemma_pow2_pos(1074);
    let list = factors(u);
    if u > 2 * binary64::one() {
        law_factors_in_range(u / 2);
        assert forall|i: int| 0 <= i < list.len() implies binary64::one() / 2 <= (
        #[trigger] list[i]).units() <= 2 * binary64::one() by {
            if i > 0 {
                assert(list[i] == factors(u / 2)[i - 1]);
            }
        }
    } else if u < binary64::one() / 2 {
        law_factors_in_range(2 * u);
        assert forall|i: int| 0 <= i < list.len() implies binary64::one() / 2 <= (
        #[trigger] list[i]).units() <= 2 * binary64::one() by {
            if i > 0 {
                assert(list[i] == factors(2 * u)[i - 1]);
            }
        }
    }
}

/// The product of the factors, each in units.
pub open spec fn product(list: Seq<Factor>) -> nat
    decreases list.len(),
{
    if list.len() == 0 {
        1
    } else {
        list[0].units() * product(list.drop_first())
    }
}

/// `1` in units, to the power of `n`.
pub open spec fn ones(n: nat) -> nat
    decreases n,
{
    if n == 0 {
        1
    } else {
        binary64::one() * ones((n - 1) as nat)
    }
}

/// The factors of a tempo that is not above two multiply to it.
proof fn lemma_product_low(u: nat)
    requires
        0 < u <= 2 * binary64::one(),
    ensures
        product(factors(u)) == u * ones((factors(u).len() - 1) as nat),
    decreases 2 * binary64::one() - u,
{
    lemma_pow2_pos(1074);
    lemma_pow2_unfold(1074);
    let one = binary64::one();
    if u < one / 2 {
        let rest = factors(2 * u);
        lemma_product_low(2 * u);
        lemma_factors_nonempty(2 * u);
        assert(factors(u).drop_first() =~= rest);
        let n = (rest.len() - 1) as nat;
        let half = one / 2;
        assert(half * ((2 * u) * ones(n)) == u * ((2 * half) * ones(n))) by (nonlinear_arith);
        assert(ones(rest.len()) == one * ones(n));
    } else {
        let list = factors(u);
        assert(list =~= seq![Factor::Rest(u)]);
        assert(list.drop_first().len() == 0);
        assert(product(list.drop_first()) == 1);
        assert(u * 1 == u);
    }
}

/// The factors of the double with exponent `e` and fraction `f` multiply to it.
proof fn lemma_product(e: nat, f: nat)
    requires
        e < 2047,
        f < 0x10_0000_0000_0000,
        binary64::magnitude_of(e, f) > 0,
    ensures
        ({
            let u = binary64::magnitude_of(e, f);
            product(factors(u)) == u * ones((factors(u).len() - 1) as nat)
        }),
    decreases e,
{
    let u = binary64::magnitude_of(e, f);
    lemma_bounds(e, f);
    if u > 2 * binary64::one() {
        lemma_scale(e, f);
        lemma_product((e - 1) as nat, f);
        let one = binary64::one();
        let rest = factors(u / 2);
        lemma_factors_nonempty(u / 2);
        assert(factors(u).drop_first() =~= rest);
        let n = (rest.len() - 1) as nat;
        let h = u / 2;
        assert((2 * one) * (h * ones(n)) == (2 * h) * (one * ones(n))) by (nonlinear_arith);
        assert(ones(rest.len()) == one * ones(n));
    } else {
        lemma_product_low(u);
    }
}

/// The factors of a positive, finite tempo multiply to exactly that tempo: no
/// part of the correction is lost by splitting it. With `n` factors in units,
/// the product carries `n - 1` factors of 1 in units too many.
pub proof fn law_factors_multiply_to_tempo(tempo: Binary64)
    requires
        tempo.value() > 0,
        !tempo.is_nan(),
        !tempo.is_infinite(),
    ensures
        product(factors(tempo.magnitude())) == tempo.magnitude() * ones(
            (factors(tempo.magnitude()).len() - 1) as nat,
        ),
{
    lemma_product(tempo.exponent(), tempo.fraction());
}

/// A tempo from one half to two takes a single filter.
pub proof fn law_tempo_in_range_is_single_factor(tempo: Binary64)
    requires
        !tempo.is_nan(),
        binary64::one() / 2 <= tempo.value() <= 2 * binary64::one(),
    ensures
        factors(tempo.magnitude()) == seq![Factor::Rest(tempo.magnitude())],
{
    lemma_pow2_pos(1074);
    lemma_pow2_unfold(1074);
    lemma_pow2_pos(1073);
}

/// A rest from one half to two is printed as a number in that range too.
#[verifier::spinoff_prover]
#[verifier::rlimit(50)]
proof fn lemma_printed_rest(u: nat)
    requires
        binary64::one() / 2 <= u <= 2 * binary64::one(),
    ensures
        50_000_000 <= binary64::spec_rounded(u, 100_000_000) <= 200_000_000,
        -(u as int) <= binary64::spec_rounded(u, 100_000_000) * binary64::one() - u * 100_000_000
            <= u,
{
    let one = binary64::one();
    lemma_pow2_pos(1074);
    lemma_pow2_unfold(1074);
    let x = u * 100_000_000;
    let (q, rem) = (x / one, x % one);
    let r = binary64::spec_rounded(u, 100_000_000);
    lemma_fundamental_div_mod(x as int, one as int);
    assert(x == one * q + rem);
    lemma_mod_bound(x as int, one as int);
    assert(q * one == one * q) by (nonlinear_arith);
    assert((q + 1) * one == one * q + one) by (nonlinear_arith);
    assert(q >= 50_000_000) by (nonlinear_arith)
        requires
            one * q + rem >= 50_000_000 * one,
            rem < one,
            one > 0,
    ;
    assert(q <= 200_000_000) by (nonlinear_arith)
        requires
            one * q <= 200_000_000 * one,
            one > 0,
    ;
    if q == 200_000_000 {
        assert(rem == 0);
    }
}

impl Factor {
    /// The factor as ffmpeg reads it, in parts of 10^-8.
    pub open spec fn printed(self) -> nat {
        match self {
            Factor::Two => 200_000_000,
            Factor::Half => 50_000_000,
            Factor::Rest(u) => binary64::spec_rounded(u, 100_000_000),
        }
    }
}

/// The product of the printed factors, each in parts of 10^-8.
pub open spec fn printed_product(list: Seq<Factor>) -> nat
    decreases list.len(),
{
    if list.len() == 0 {
        1
    } else {
        list[0].printed() * printed_product(list.drop_first())
    }
}

/// `10^8` to the power of `n`.
pub open spec fn parts(n: nat) -> nat
    decreases n,
{
    if n == 0 {
        1
    } else {
        100_000_000 * parts((n - 1) as nat)
    }
}

/// Every factor of a positive tempo is printed as a number that one `atempo`
/// filter takes: from one half to two.
pub proof fn law_printed_factors_in_range(u: nat)
    requires
        u > 0,
    ensures
        forall|i: int|
            0 <= i < factors(u).len() ==> 50_000_000 <= (#[trigger] factors(u)[i]).printed()
                <= 200_000_000,
{
    law_factors_in_range(u);
    assert forall|i: int| 0 <= i < factors(u).len() implies 50_000_000 <= (
    #[trigger] factors(u)[i]).printed() <= 200_000_000 by {
        if let Factor::Rest(rest) = factors(u)[i] {
            lemma_printed_rest(rest);
        }
    }
}

/// Whether the printed factors of `u` units multiply to within 10^-8 of it.
pub open spec fn prints_closely(u: nat) -> bool {
    let scale = parts(factors(u).len());
    let error = printed_product(factors(u)) * binary64::one() - u * scale;
    -(u * scale) <= 100_000_000 * error <= u * scale
}

/// A single factor is printed closely.
proof fn lemma_single_is_close(u: nat)
    requires
        binary64::one() / 2 <= u <= 2 * binary64::one(),
        u > 0,
    ensures
        prints_closely(u),
{
    let list = factors(u);
    lemma_printed_rest(u);
    assert(list =~= seq![Factor::Rest(u)]);
    let r = binary64::spec_rounded(u, 100_000_000);
    assert(list.drop_first().len() == 0);
    assert(printed_product(list.drop_first()) == 1);
    assert(printed_product(list) == r * 1);
    assert(parts(0) == 1);
    assert(parts(1) == 100_000_000 * 1);
}

/// One more doubling or halving keeps the chain as close: with the factor `k`
/// halves, and `v` units left, `u` units are `k` halves of `v`.
proof fn lemma_step_is_close(product: nat, scale: nat, u: nat, v: nat, k: nat)
    requires
        2 * u == k * v,
        ({
            let error = product * binary64::one() - v * scale;
            -(v * scale) <= 100_000_000 * error <= v * scale
        }),
    ensures
        ({
            let error = ((50_000_000 * k) * product) * binary64::one() - u * (100_000_000 * scale);
            -(u * (100_000_000 * scale)) <= 100_000_000 * error <= u * (100_000_000 * scale)
        }),
{
    let one = binary64::one();
    let error = product * one - v * scale;
    let more = ((50_000_000 * k) * product) * one - u * (100_000_000 * scale);
    let c = 50_000_000 * k;
    assert(u * (100_000_000 * scale) == c * (v * scale)) by (nonlinear_arith)
        requires
            2 * u == k * v,
            c == 50_000_000 * k,
    ;
    assert(more == c * error) by (nonlinear_arith)
        requires
            more == (c * product) * one - c * (v * scale),
            error == product * one - v * scale,
    ;
    assert(c * (100_000_000 * error) == 100_000_000 * (c * error)) by (nonlinear_arith);
    assert(-(c * (v * scale)) <= c * (100_000_000 * error) <= c * (v * scale)) by (nonlinear_arith)
        requires
            -(v * scale) <= 100_000_000 * error <= v * scale,
            c >= 0,
    ;
}

/// The chain of a tempo that is not above two is printed closely.
proof fn lemma_low_is_close(u: nat)
    requires
        0 < u <= 2 * binary64::one(),
    ensures
        prints_closely(u),
    decreases 2 * binary64::one() - u,
{
    lemma_pow2_pos(1074);
    if u < binary64::one() / 2 {
        let rest = factors(2 * u);
        lemma_low_is_close(2 * u);
        assert(factors(u).drop_first() =~= rest);
        lemma_step_is_close(printed_product(rest), parts(rest.len()), u, 2 * u, 1);
        assert(parts(factors(u).len()) == 100_000_000 * parts(rest.len()));
    } else {
        lemma_single_is_close(u);
    }
}

/// The chain of the double with exponent `e` and fraction `f` is printed
/// closely.
proof fn lemma_is_close(e: nat, f: nat)
    requires
        e < 2047,
        f < 0x10_0000_0000_0000,
        binary64::magnitude_of(e, f) > 0,
    ensures
        prints_closely(binary64::magnitude_of(e, f)),
    decreases e,
{
    let u = binary64::magnitude_of(e, f);
    lemma_bounds(e, f);
    if u > 2 * binary64::one() {
        lemma_scale(e, f);
        lemma_is_close((e - 1) as nat, f);
        let rest = factors(u / 2);
        assert(factors(u).drop_first() =~= rest);
        lemma_step_is_close(printed_product(rest), parts(rest.len()), u, u / 2, 4);
        assert(parts(factors(u).len()) == 100_000_000 * parts(rest.len()));
    } else {
        lemma_low_is_close(u);
    }
}

/// The chain that is printed for a positive, finite tempo is as good as the
/// tempo: the product of the printed factors is within 10^-8 of it, relative
/// to the tempo.
pub proof fn law_printed_chain_is_close(tempo: Binary64)
    requires
        tempo.value() > 0,
        !tempo.is_nan(),
        !tempo.is_infinite(),
    ensures
        prints_closely(tempo.magnitude()),
{
    lemma_is_close(tempo.exponent(), tempo.fraction());
}

/// The tempo is the audio duration divided by the video duration, as closely
/// as a double can be: no other one times the video duration comes closer to
/// the audio duration. It has the sign of the audio duration.
pub proof fn law_tempo_is_closest(v_dur: Binary64, a_dur: Binary64, other: Binary64)
    requires
        v_dur.is_finite(),
        a_dur.is_finite(),
        other.is_finite(),
        v_dur.value() > 0,
    ensures
        ({
            let tempo = spec_tempo(v_dur, a_dur);
            let audio = a_dur.magnitude() * binary64::one();
            &&& !tempo.is_nan()
            &&& tempo.negative() == a_dur.negative()
            &&& ieee::gap(audio, v_dur.magnitude() * tempo.magnitude()) <= ieee::gap(
                audio,
                v_dur.magnitude() * other.magnitude(),
            )
        }),
{
    ieee::law_quotient_is_closest(a_dur, v_dur, other);
}

/// Audio that is shorter than the video is slowed down or kept, and audio that
/// is longer is sped up or kept.
#[verifier::spinoff_prover]
#[verifier::rlimit(50)]
pub proof fn law_tempo_side(v_dur: Binary64, a_dur: Binary64)
    requires
        v_dur.is_finite(),
        a_dur.is_finite(),
        v_dur.value() > 0,
    ensures
        a_dur.value() <= v_dur.value() ==> spec_tempo(v_dur, a_dur).value() <= binary64::one(),
        a_dur.value() >= v_dur.value() ==> spec_tempo(v_dur, a_dur).value() >= binary64::one(),
{
    let unity = Binary64 { bits: ieee::UNITY };
    ieee::law_constants();
    let (a, v, one) = (a_dur.magnitude(), v_dur.magnitude(), binary64::one());
    let b = ieee::nearest(a * one, v);
    lemma_pow2_pos(1074);
    ieee::law_quotient_is_closest(a_dur, v_dur, unity);
    ieee::law_nearest_exists(a * one, v);
    ieee::law_doubles_are_kept(unity.abs_bits(), v);
    assert((v * one) * v == (v * one) * v);
    if a_dur.value() >= v_dur.value() {
        assert((v * one) * v <= (a * one) * v) by (nonlinear_arith)
            requires
                v <= a,
        ;
        ieee::law_rounding_keeps_order(v * one, v, a * one, v);
        if unity.abs_bits() < b {
            binary64::lemma_bits_order(unity.abs_bits(), b);
        }
    } else if !a_dur.negative() {
        assert((a * one) * v <= (v * one) * v) by (nonlinear_arith)
            requires
                a <= v,
        ;
        ieee::law_rounding_keeps_order(a * one, v, v * one, v);
        if b < unity.abs_bits() {
            binary64::lemma_bits_order(b, unity.abs_bits());
        }
    }
}

/// Longer audio never asks for a lower tempo, and a longer video never for a
/// higher one.
pub proof fn law_tempo_order(v_dur: Binary64, a_dur: Binary64, v_more: Binary64, a_more: Binary64)
    requires
        v_dur.is_finite(),
        a_dur.is_finite(),
        v_more.is_finite(),
        a_more.is_finite(),
        0 < v_dur.value() <= v_more.value(),
        0 <= a_dur.value() <= a_more.value(),
    ensures
        spec_tempo(v_more, a_dur).magnitude() <= spec_tempo(v_dur, a_dur).magnitude()
            <= spec_tempo(v_dur, a_more).magnitude(),
{
    let (a, v) = (a_dur.magnitude(), v_dur.magnitude());
    let (am, vm) = (a_more.magnitude(), v_more.magnitude());
    assert(a * v <= a * vm) by (nonlinear_arith)
        requires
            v <= vm,
    ;
    assert(a * v <= am * v) by (nonlinear_arith)
        requires
            a <= am,
    ;
    ieee::law_quotient_keeps_order(a_dur, v_more, a_dur, v_dur);
    ieee::law_quotient_keeps_order(a_dur, v_dur, a_more, v_dur);
}

/// Audio played at the tempo takes as long as the video does, up to one part
/// in `2^53`: the tempo times the video duration is the audio duration. It
/// holds unless the tempo is too small or too large for a normal double.
pub proof fn law_corrected_length(v_dur: Binary64, a_dur: Binary64)
    requires
        v_dur.is_finite(),
        a_dur.is_finite(),
        v_dur.value() > 0,
        0 < spec_tempo(v_dur, a_dur).exponent() < 2047,
    ensures
        ({
            let played = v_dur.magnitude() * spec_tempo(v_dur, a_dur).magnitude();
            0x20_0000_0000_0000 * ieee::gap(a_dur.magnitude() * binary64::one(), played) <= played
        }),
{
    let (n, d) = (a_dur.magnitude() * binary64::one(), v_dur.magnitude());
    ieee::law_nearest_exists(n, d);
    ieee::law_quotient_is_closest(a_dur, v_dur, a_dur);
    assert(spec_tempo(v_dur, a_dur).abs_bits() == ieee::nearest(n, d));
    ieee::law_relative_error(n, d);
}

/// Without a positive video duration nothing is changed; what is not a number
/// leads to a tempo that is not one.
pub proof fn law_tempo_of_odd_durations(v_dur: Binary64, a_dur: Binary64)
    ensures
        !v_dur.is_nan() && v_dur.value() <= 0 ==> spec_tempo(v_dur, a_dur).value()
            == binary64::one(),
        v_dur.is_nan() ==> spec_tempo(v_dur, a_dur).is_nan(),
        a_dur.is_nan() && v_dur.value() > 0 ==> spec_tempo(v_dur, a_dur).is_nan(),
{
    ieee::law_constants();
    ieee::law_special_values(a_dur, v_dur);
}

/// The threshold is the double closest to a thousandth.
pub proof fn law_threshold(other: Binary64)
    requires
        other.is_finite(),
    ensures
        ({
            let threshold = Binary64 { bits: DRIFT_THRESHOLD_PCT };
            &&& threshold.is_finite()
            &&& !threshold.negative()
            &&& ieee::gap(binary64::one(), 1000 * threshold.magnitude()) <= ieee::gap(
                binary64::one(),
                1000 * other.magnitude(),
            )
        }),
{
    ieee::lemma_nearest_of_one(0x10_624D_D2F1_A9FC, 1012, 1000);
    let threshold = Binary64 { bits: DRIFT_THRESHOLD_PCT };
    assert(threshold.abs_bits() == 1012 * 0x10_0000_0000_0000 + 0x10_624D_D2F1_A9FC);
    ieee::law_no_double_is_closer(binary64::one(), 1000, other.abs_bits());
}

/// For a tempo from one half to two the drift is the double closest to a
/// hundred times the distance of the tempo from 1.
#[verifier::spinoff_prover]
#[verifier::rlimit(50)]
pub proof fn law_drift_is_closest(tempo: Binary64, other: Binary64)
    requires
        tempo.is_finite(),
        binary64::one() / 2 <= tempo.value() <= 2 * binary64::one(),
        other.is_finite(),
    ensures
        ({
            let drift = spec_drift(tempo);
            let exact = 100 * ieee::distance(tempo.value(), binary64::one() as int);
            &&& !drift.is_nan()
            &&& !drift.negative()
            &&& ieee::distance(exact, drift.magnitude() as int) <= ieee::distance(
                exact,
                other.magnitude() as int,
            )
        }),
{
    let one = binary64::one();
    lemma_pow2_pos(1074);
    ieee::law_constants();
    ieee::law_difference_from_one(tempo);
    let unity = Binary64 { bits: ieee::UNITY };
    let hundred = Binary64 { bits: ieee::HUNDRED };
    let difference = tempo.spec_sum(unity.spec_negated());
    ieee::law_special_values(difference, hundred);
    let size = difference.spec_absolute();
    assert(size.is_finite());
    ieee::law_product_is_closest(size, hundred, other);
    let g = size.magnitude();
    assert(g == ieee::distance(tempo.value(), one as int));
    let drift = spec_drift(tempo).magnitude();
    assert(g * (100 * one) == one * (100 * g)) by (nonlinear_arith);
    lemma_common_unit(100 * g, drift, other.magnitude(), one);
}

/// A common unit does not matter in a comparison of distances.
proof fn lemma_common_unit(exact: nat, near: nat, far: nat, unit: nat)
    requires
        unit > 0,
        ieee::gap(unit * exact, unit * near) <= ieee::gap(unit * exact, unit * far),
    ensures
        ieee::gap(exact, near) <= ieee::gap(exact, far),
{
    let (x, y) = (ieee::gap(exact, near), ieee::gap(exact, far));
    assert(ieee::gap(unit * exact, unit * near) == unit * x) by {
        assert(unit * exact <= unit * near <==> exact <= near) by (nonlinear_arith)
            requires
                unit > 0,
        ;
        assert(unit * (near - exact) == unit * near - unit * exact) by (nonlinear_arith);
        assert(unit * (exact - near) == unit * exact - unit * near) by (nonlinear_arith);
    }
    assert(ieee::gap(unit * exact, unit * far) == unit * y) by {
        assert(unit * exact <= unit * far <==> exact <= far) by (nonlinear_arith)
            requires
                unit > 0,
        ;
        assert(unit * (far - exact) == unit * far - unit * exact) by (nonlinear_arith);
        assert(unit * (exact - far) == unit * exact - unit * far) by (nonlinear_arith);
    }
    assert(x <= y) by (nonlinear_arith)
        requires
            unit * x <= unit * y,
            unit > 0,
    ;
}

/// A drift that is below a thousandth of a percent by more than one part in a
/// hundred millions is not corrected, and one that is above it by as much is.
/// A tempo that is not finite always has drift.
#[verifier::spinoff_prover]
#[verifier::rlimit(50)]
pub proof fn law_drift_decides(tempo: Binary64)
    ensures
        ({
            let off = ieee::distance(tempo.value(), binary64::one() as int);
            &&& tempo.is_finite() && 100_000_001 * off <= 1000 * binary64::one() ==> negligible(
                tempo,
            )
            &&& tempo.is_finite() && 99_999_999 * off >= 1000 * binary64::one() ==> !negligible(
                tempo,
            )
            &&& !tempo.is_finite() ==> !negligible(tempo)
        }),
{
    let unity = Binary64 { bits: ieee::UNITY };
    let size = tempo.spec_sum(unity.spec_negated()).spec_absolute();
    let high = lemma_threshold();
    if tempo.is_finite() {
        let off = ieee::distance(tempo.value(), binary64::one() as int);
        lemma_size(tempo);
        lemma_percent(size, (high - 1) as nat, high);
        lemma_margin(off as nat);
        if size.magnitude() != off {
            lemma_margin(size.magnitude());
        }
    } else {
        lemma_not_finite(tempo);
    }
}

/// What the drift of a tempo is made of.
#[verifier::spinoff_prover]
#[verifier::rlimit(50)]
proof fn lemma_size(tempo: Binary64)
    requires
        tempo.is_finite(),
    ensures
        ({
            let size = tempo.spec_sum(Binary64 { bits: ieee::UNITY }.spec_negated()).spec_absolute();
            let off = ieee::distance(tempo.value(), binary64::one() as int);
            &&& !size.is_nan()
            &&& !size.negative()
            &&& size.magnitude() == off || (2 * off >= binary64::one() && 50 * size.magnitude()
                >= binary64::one())
        }),
{
    let one = binary64::one();
    let unity = Binary64 { bits: ieee::UNITY };
    let difference = tempo.spec_sum(unity.spec_negated());
    ieee::law_special_values(difference, unity);
    lemma_pow2_unfold(1074);
    if one / 2 <= tempo.value() <= 2 * one {
        ieee::law_difference_from_one(tempo);
    } else {
        lemma_far_from_one(tempo);
    }
}

/// The drift of a tempo that is not finite is not finite either.
#[verifier::spinoff_prover]
#[verifier::rlimit(50)]
proof fn lemma_not_finite(tempo: Binary64)
    requires
        !tempo.is_finite(),
    ensures
        !negligible(tempo),
{
    let (unity, hundred) = (Binary64 { bits: ieee::UNITY }, Binary64 { bits: ieee::HUNDRED });
    let minus = unity.spec_negated();
    let difference = tempo.spec_sum(minus);
    let size = difference.spec_absolute();
    let drift = spec_drift(tempo);
    assert(!minus.is_nan() && !minus.is_infinite());
    assert(!hundred.is_nan() && !hundred.is_infinite() && !hundred.negative());
    if tempo.is_nan() {
        assert(difference.is_nan());
        assert(size.is_nan());
        assert(drift.is_nan());
    } else {
        assert(difference == tempo);
        assert(size.is_infinite() && !size.negative());
        binary64::lemma_magnitude_zero(hundred);
        let infinite = Binary64 { bits: ieee::INFINITY };
        assert(drift == infinite);
        let threshold = Binary64 { bits: DRIFT_THRESHOLD_PCT };
        assert(threshold.abs_bits() < infinite.abs_bits());
        binary64::lemma_magnitude_order(threshold, infinite);
    }
}

/// The bits of the threshold.
proof fn lemma_threshold() -> (high: nat)
    ensures
        0 < high < ieee::INFINITY,
        !(Binary64 { bits: DRIFT_THRESHOLD_PCT }).is_nan(),
        (Binary64 { bits: DRIFT_THRESHOLD_PCT }).value() == binary64::magnitude_at(high),
        high == 1012 * 0x10_0000_0000_0000 + 0x10_624D_D2F1_A9FC,
{
    let threshold = Binary64 { bits: DRIFT_THRESHOLD_PCT };
    let high = 1012 * 0x10_0000_0000_0000 + 0x10_624D_D2F1_A9FC;
    assert(threshold.abs_bits() == high);
    high as nat
}

/// How an amount compares with the doubles at the threshold and below it.
proof fn lemma_margin(off: nat)
    ensures
        ({
            let high = (1012 * 0x10_0000_0000_0000 + 0x10_624D_D2F1_A9FC) as nat;
            &&& 100_000_001 * off <= 1000 * binary64::one() ==> 100 * off
                <= binary64::magnitude_at((high - 1) as nat)
            &&& 99_999_999 * off >= 1000 * binary64::one() ==> 100 * off
                >= binary64::magnitude_at(high)
            &&& 50 * off >= binary64::one() ==> 99_999_999 * off >= 1000 * binary64::one()
            &&& 2 * off >= binary64::one() ==> 100_000_001 * off > 1000 * binary64::one()
        }),
{
    lemma_pow2_pos(1074);
    ieee::lemma_nearest_of_one(0x10_624D_D2F1_A9FC, 1012, 1000);
}

/// A tempo outside of one half to two is far from 1 after rounding too.
#[verifier::spinoff_prover]
#[verifier::rlimit(50)]
proof fn lemma_far_from_one(tempo: Binary64)
    requires
        tempo.is_finite(),
        !(binary64::one() / 2 <= tempo.value() <= 2 * binary64::one()),
    ensures
        ({
            let size = tempo.spec_sum(Binary64 { bits: ieee::UNITY }.spec_negated()).spec_absolute();
            &&& !size.is_nan()
            &&& 50 * size.magnitude() >= binary64::one()
        }),
{
    let one = binary64::one();
    ieee::law_constants();
    let unity = Binary64 { bits: ieee::UNITY };
    let minus = unity.spec_negated();
    ieee::law_special_values(unity, minus);
    let half = Binary64 { bits: 0x3FE0_0000_0000_0000 };
    assert(half.exponent() == 1022 && half.fraction() == 0 && half.abs_bits() == 0x3FE0_0000_0000_0000);
    lemma_bounds(1022, 0);
    vstd::arithmetic::power2::lemma2_to64_rest();
    lemma_pow2_adds(52, 1021);
    lemma_pow2_unfold(1074);
    assert(half.magnitude() == one / 2);
    let v = tempo.value() - one;
    assert(minus.value() == -one);
    let n = (if v < 0 {
        -v
    } else {
        v
    }) as nat;
    ieee::law_sum_is_closest(tempo, minus, tempo);
    ieee::law_doubles_are_kept(half.abs_bits(), 1);
    assert(1 * half.magnitude() == half.magnitude());
    ieee::law_rounding_keeps_order(half.magnitude(), 1, n, 1);
    ieee::law_nearest_exists(n, 1);
    let b = ieee::nearest(n, 1);
    if half.abs_bits() < b {
        binary64::lemma_bits_order(half.abs_bits(), b);
    }
    let sum = tempo.spec_sum(minus);
    assert(sum.abs_bits() == b);
    ieee::law_special_values(sum, sum);
}

/// How a hundred times `size` compares with the doubles at `low` and `high`.
#[verifier::spinoff_prover]
#[verifier::rlimit(50)]
proof fn lemma_percent(size: Binary64, low: nat, high: nat)
    requires
        !size.is_nan(),
        !size.negative(),
        low < high < ieee::INFINITY,
    ensures
        ({
            let drift = size.spec_product(Binary64 { bits: ieee::HUNDRED });
            &&& !drift.is_nan()
            &&& !drift.negative()
            &&& 100 * size.magnitude() <= binary64::magnitude_at(low) ==> drift.value()
                < binary64::magnitude_at(high)
            &&& 100 * size.magnitude() >= binary64::magnitude_at(high) ==> drift.value()
                >= binary64::magnitude_at(high)
        }),
{
    let one = binary64::one();
    lemma_pow2_pos(1074);
    ieee::law_constants();
    let hundred = Binary64 { bits: ieee::HUNDRED };
    ieee::law_special_values(size, hundred);
    let drift = size.spec_product(hundred);
    binary64::lemma_bits_order(low, high);
    if size.is_infinite() {
        binary64::lemma_bits_order(high, ieee::INFINITY as nat);
    } else {
        ieee::law_product_is_closest(size, hundred, hundred);
        let g = size.magnitude();
        let n = g * (100 * one);
        let b = ieee::nearest(n, one);
        ieee::law_nearest_exists(n, one);
        assert(drift.abs_bits() == b);
        assert(n == one * (100 * g)) by (nonlinear_arith)
            requires
                n == g * (100 * one),
        ;
        let (x, y) = (binary64::magnitude_at(low), binary64::magnitude_at(high));
        if 100 * g <= x {
            ieee::law_doubles_are_kept(low, one);
            assert((one * (100 * g)) * one <= (one * x) * one) by (nonlinear_arith)
                requires
                    100 * g <= x,
            ;
            ieee::law_rounding_keeps_order(n, one, one * x, one);
            if b < low {
                binary64::lemma_bits_order(b, low);
            }
        }
        if 100 * g >= y {
            ieee::law_doubles_are_kept(high, one);
            assert((one * y) * one <= (one * (100 * g)) * one) by (nonlinear_arith)
                requires
                    100 * g >= y,
            ;
            ieee::law_rounding_keeps_order(one * y, one, n, one);
            if high < b {
                binary64::lemma_bits_order(high, b);
            }
        }
    }
}

/// A probe names its stream: for a selector that is not empty the arguments
/// hold `-select_streams`, directly followed by that selector. What is asked
/// for stands behind `-show_entries`, and the input comes last.
pub proof fn law_probe_names_its_selector(input: Seq<u8>, selector: Seq<char>, entry: Seq<char>)
    ensures
        spec_ffprobe(input, selector, entry).program == path::bytes_of("/usr/bin/ffprobe"@),
        spec_ffprobe(input, selector, entry).envs.len() == 0,
        selector.len() > 0 ==> spec_ffprobe(input, selector, entry).args == seq![
            path::bytes_of("-v"@),
            path::bytes_of("error"@),
            path::bytes_of("-select_streams"@),
            path::bytes_of(selector),
            path::bytes_of("-show_entries"@),
            path::bytes_of(entry),
            path::bytes_of("-of"@),
            path::bytes_of("default=nk=1:nw=1"@),
            input,
        ],
        selector.len() == 0 ==> spec_ffprobe(input, selector, entry).args == seq![
            path::bytes_of("-v"@),
            path::bytes_of("error"@),
            path::bytes_of("-show_entries"@),
            path::bytes_of(entry),
            path::bytes_of("-of"@),
            path::bytes_of("default=nk=1:nw=1"@),
            input,
        ],
{
}

/// Probes for different streams, fields or inputs are different commands.
pub proof fn law_probes_differ(
    input: Seq<u8>,
    selector: Seq<char>,
    entry: Seq<char>,
    other_input: Seq<u8>,
    other_selector: Seq<char>,
    other_entry: Seq<char>,
)
    ensures
        spec_ffprobe(input, selector, entry) == spec_ffprobe(
            other_input,
            other_selector,
            other_entry,
        ) ==> input == other_input && selector =~= other_selector && entry == other_entry,
{
    law_probe_names_its_selector(input, selector, entry);
    law_probe_names_its_selector(other_input, other_selector, other_entry);
    path::law_bytes_are_faithful(selector, other_selector);
    path::law_bytes_are_faithful(entry, other_entry);
    let a = spec_ffprobe(input, selector, entry).args;
    let b = spec_ffprobe(other_input, other_selector, other_entry).args;
    if a == b {
        assert(a.last() == input && b.last() == other_input);
        assert(a[a.len() - 4] == path::bytes_of(entry));
        assert(b[b.len() - 4] == path::bytes_of(other_entry));
        if selector.len() > 0 {
            assert(a[3] == path::bytes_of(selector));
            assert(b[3] == path::bytes_of(other_selector));
        }
    }
}

/// Every step of the search asks for its own field, and takes as many numbers
/// from it as it needs.
pub proof fn law_probe_fields(probe: Probe, field: Seq<char>)
    ensures
        probe.spec_entry() == (match probe {
            Probe::Duration => "stream=duration"@,
            Probe::Tag => "stream_tags=DURATION"@,
            Probe::Ticks => "stream=duration_ts"@,
            Probe::TimeBase { .. } => "stream=time_base"@,
            Probe::Format => "format=duration"@,
        }),
        probe.spec_pieces(field) matches Some(list) ==> list.len() == probe.arity(),
        probe is Duration || probe is Ticks || probe is Format ==> probe.spec_pieces(field)
            == Some(seq![field]),
{
}

/// Hours, minutes and seconds are read back from a text that joins them with
/// colons; a text with fewer than two colons holds none.
pub proof fn law_hms_rejoins(h: Seq<char>, m: Seq<char>, sec: Seq<char>)
    requires
        forall|i: int| 0 <= i < h.len() ==> h[i] != ':',
        forall|i: int| 0 <= i < m.len() ==> m[i] != ':',
    ensures
        Probe::Tag.spec_pieces(h + seq![':'] + (m + seq![':'] + sec)) == Some(seq![h, m, sec]),
        spec_hms(h + seq![':'] + (m + seq![':'] + sec)) == Some(seq![h, m, sec]),
        spec_hms(h + seq![':'] + m) is None,
        spec_hms(h) is None,
{
    text::law_split_once_rejoins(h, ':', m + seq![':'] + sec);
    text::law_split_once_rejoins(h, ':', m);
    text::law_split_once_rejoins(m, ':', sec);
}

/// A numerator and a denominator are read back from a text that joins them
/// with a slash; a text without a slash holds none.
pub proof fn law_time_base_rejoins(num: Seq<char>, den: Seq<char>, ticks: Binary64)
    requires
        forall|i: int| 0 <= i < num.len() ==> num[i] != '/',
    ensures
        (Probe::TimeBase { ticks }).spec_pieces(num + seq!['/'] + den) == Some(seq![num, den]),
        spec_time_base(num + seq!['/'] + den) == Some(seq![num, den]),
        spec_time_base(num) is None,
{
    text::law_split_once_rejoins(num, '/', den);
}

/// Whole hours and minutes are exact, and with the seconds the sum is the
/// double closest to 3600 times the hours, 60 times the minutes and the
/// seconds.
pub proof fn law_clock_is_closest(
    h: Binary64,
    m: Binary64,
    sec: Binary64,
    hours: nat,
    minutes: nat,
    other: Binary64,
)
    requires
        h.is_finite(),
        m.is_finite(),
        sec.is_finite(),
        other.is_finite(),
        h.value() == hours * binary64::one(),
        m.value() == minutes * binary64::one(),
        3600 * hours + 60 * minutes < 0x20_0000_0000_0000,
    ensures
        ({
            let r = spec_clock(h, m, sec);
            let exact = (3600 * hours + 60 * minutes) * binary64::one() + sec.value();
            &&& !r.is_nan()
            &&& ieee::distance(exact, r.value()) <= ieee::distance(exact, other.value())
        }),
{
    ieee::law_constants();
    let (hour, minute) = (Binary64 { bits: ieee::HOUR }, Binary64 { bits: ieee::MINUTE });
    ieee::law_whole_products(h, hour, hours, 3600);
    ieee::law_whole_products(m, minute, minutes, 60);
    assert(hours * 3600 == 3600 * hours && minutes * 60 == 60 * minutes);
    ieee::law_whole_sums(
        h.spec_product(hour),
        m.spec_product(minute),
        3600 * hours,
        60 * minutes,
    );
    ieee::law_sum_is_closest(
        h.spec_product(hour).spec_sum(m.spec_product(minute)),
        sec,
        other,
    );
}

/// The field in a reply is what stands on its first line between white space,
/// whatever follows on other lines; there is none where that is empty.
pub proof fn law_field_is_the_first_line(
    left: Seq<char>,
    core: Seq<char>,
    right: Seq<char>,
    rest: Seq<char>,
)
    requires
        forall|i: int|
            0 <= i < left.len() ==> text::is_white(#[trigger] left[i]) && left[i] != '\n',
        forall|i: int|
            0 <= i < right.len() ==> text::is_white(#[trigger] right[i]) && right[i] != '\n',
        forall|i: int| 0 <= i < core.len() ==> core[i] != '\n',
        core.len() > 0 ==> !text::is_white(core[0]) && !text::is_white(core.last()),
    ensures
        ({
            let line = left + core + right;
            let field = if core.len() == 0 {
                None
            } else {
                Some(core)
            };
            &&& spec_field(line) == field
            &&& spec_field(line + seq!['\n'] + rest) == field
        }),
{
    let line = left + core + right;
    assert forall|i: int| 0 <= i < line.len() implies line[i] != '\n' by {
        if i < left.len() {
            assert(line[i] == left[i]);
        } else if i < left.len() + core.len() {
            assert(line[i] == core[i - left.len()]);
        } else {
            assert(line[i] == right[i - left.len() - core.len()]);
        }
    }
    text::law_first_line(line, rest);
    text::law_trim_is_the_core(left, core, right);
}

/// The correction reads the input behind `-i`, takes its first video and its
/// first audio stream, copies the video, applies the chain for the tempo and
/// encodes the audio as AAC into the output, which comes last.
pub proof fn law_correction_is_complete(input: Seq<u8>, output: Seq<u8>, tempo: Binary64)
    ensures
        spec_correction(input, output, tempo).program == path::bytes_of("/usr/bin/ffmpeg"@),
        spec_correction(input, output, tempo).envs.len() == 0,
        spec_correction(input, output, tempo).args == seq![
            path::bytes_of("-y"@),
            path::bytes_of("-i"@),
            input,
            path::bytes_of("-map"@),
            path::bytes_of("0:v:0"@),
            path::bytes_of("-map"@),
            path::bytes_of("0:a:0"@),
            path::bytes_of("-c:v"@),
            path::bytes_of("copy"@),
            path::bytes_of("-af"@),
            path::bytes_of(spec_atempo_chain(tempo) + ",aresample=async=1:first_pts=0"@),
            path::bytes_of("-c:a"@),
            path::bytes_of("aac"@),
            path::bytes_of("-b:a"@),
            path::bytes_of("192k"@),
            output,
        ],
{
}

/// A number with one digit before and one behind the point.
proof fn lemma_short_number(t: Seq<char>, a: char, b: char)
    requires
        t =~= seq![a, '.', b],
        '0' <= a <= '9',
        '0' <= b <= '9',
    ensures
        text::reads_as(t, 1, (10 * (a as int - '0' as int) + (b as int - '0' as int)) as nat),
{
    reveal_with_fuel(text::number, 2);
    reveal_with_fuel(text::tens, 2);
    assert(t.take(1) =~= seq![a]);
    assert(t.skip(2) =~= seq![b]);
    assert(seq![a].drop_last() =~= Seq::empty());
    assert(seq![b].drop_last() =~= Seq::empty());
    let (x, y) = (text::number(t.take(1)), text::number(t.skip(2)));
    assert(x == a as int - '0' as int && y == b as int - '0' as int);
    let p = text::tens(1);
    assert(x * p == 10 * x) by (nonlinear_arith)
        requires
            p == 10,
    ;
}

/// The filter of a factor is `atempo=` and a decimal number, which reads back
/// as the printed factor in parts of 10^-8, or of one tenth for the whole
/// doublings and halvings.
pub proof fn law_filter_reads_back(f: Factor)
    ensures
        f.filter().len() > 7,
        f.filter().take(7) == "atempo="@,
        f is Rest ==> text::reads_as(f.filter().skip(7), 8, f.printed()),
        f !is Rest ==> f.printed() % 10_000_000 == 0 && text::reads_as(
            f.filter().skip(7),
            1,
            f.printed() / 10_000_000,
        ),
{
    reveal_strlit("atempo=");
    reveal_strlit("atempo=2.0");
    reveal_strlit("atempo=0.5");
    let t = f.filter().skip(7);
    assert(f.filter().take(7) =~= "atempo="@);
    match f {
        Factor::Two => {
            lemma_short_number(t, '2', '0');
        },
        Factor::Half => {
            lemma_short_number(t, '0', '5');
        },
        Factor::Rest(u) => {
            let n = binary64::spec_rounded(u, 100_000_000);
            assert(text::tens(8) == 100_000_000) by {
                reveal_with_fuel(text::tens, 9);
            }
            binary64::law_fixed_text_reads_back(n, 8);
            assert(t =~= binary64::fixed_text(n, 100_000_000, 8));
        },
    }
}

/// No filter of a factor holds a comma.
proof fn lemma_filter_is_plain(f: Factor)
    ensures
        forall|i: int| 0 <= i < f.filter().len() ==> f.filter()[i] != ',',
{
    law_filter_reads_back(f);
    reveal_strlit("atempo=");
    let s = f.filter();
    let t = s.skip(7);
    let point = if f is Rest {
        t.len() - 9
    } else {
        t.len() - 2
    };
    assert forall|i: int| 0 <= i < s.len() implies s[i] != ',' by {
        if i < 7 {
            assert(s[i] == s.take(7)[i]);
        } else if i < 7 + point {
            assert(s[i] == t.take(point)[i - 7]);
        } else if i == 7 + point {
            assert(s[i] == t[point]);
        } else {
            assert(s[i] == t.skip(point + 1)[i - 7 - point - 1]);
        }
    }
}

/// A chain cut at its commas gives one filter for each factor, in order.
pub proof fn law_chain_splits(list: Seq<Factor>)
    requires
        list.len() > 0,
    ensures
        text::spec_split(filters(list), ',') == list.map_values(|f: Factor| f.filter()),
    decreases list.len(),
{
    lemma_filter_is_plain(list[0]);
    reveal_strlit(",");
    assert(","@ =~= seq![',']);
    if list.len() == 1 {
        text::law_split_takes_pieces(list[0].filter(), ',', list[0].filter());
        assert(list.map_values(|f: Factor| f.filter()) =~= seq![list[0].filter()]);
    } else {
        let rest = list.drop_first();
        law_chain_splits(rest);
        text::law_split_takes_pieces(list[0].filter(), ',', filters(rest));
        assert(list.map_values(|f: Factor| f.filter()) =~= seq![list[0].filter()]
            + rest.map_values(|f: Factor| f.filter()));
    }
}

/// A tempo from one half to two becomes a single filter, whose number has
/// eight decimals and is the closest such number to the tempo.
pub proof fn law_single_filter_is_closest(tempo: Binary64)
    requires
        tempo.is_finite(),
        binary64::one() / 2 <= tempo.value() <= 2 * binary64::one(),
    ensures
        spec_atempo_chain(tempo).take(7) == "atempo="@,
        exists|n: nat| #[trigger]
            text::reads_as(spec_atempo_chain(tempo).skip(7), 8, n) && -(binary64::one() as int) <= 2
                * (n * binary64::one() - tempo.value() * 100_000_000) <= binary64::one(),
{
    lemma_pow2_pos(1074);
    lemma_pow2_unfold(1074);
    lemma_pow2_pos(1073);
    law_tempo_in_range_is_single_factor(tempo);
    let f = Factor::Rest(tempo.magnitude());
    law_filter_reads_back(f);
    assert(filters(seq![f]) == f.filter());
    binary64::law_rounded_is_closest(tempo.magnitude(), 100_000_000);
    assert(text::reads_as(spec_atempo_chain(tempo).skip(7), 8, f.printed()));
}

/// A tempo that is not positive changes nothing, and one that is not a number
/// is handed on as such.
pub proof fn law_chain_of_odd_tempo(tempo: Binary64)
    ensures
        tempo.is_nan() ==> spec_atempo_chain(tempo) == "atempo=NaN"@,
        !tempo.is_nan() && tempo.value() <= 0 ==> spec_atempo_chain(tempo) == "atempo=1.0"@,
{
}

/// What is told: the tool or the input that was not found, or the duration
/// that could not be determined.
pub proof fn law_messages(error: FixSyncError, shown: Seq<char>)
    ensures
        error.spec_message(shown) == (match error {
            FixSyncError::FfprobeNotFound => "ffprobe not found: /usr/bin/ffprobe"@,
            FixSyncError::FfmpegNotFound => "ffmpeg not found: /usr/bin/ffmpeg"@,
            FixSyncError::InputNotFound => "input not found: "@ + shown,
            FixSyncError::NoVideoDuration => "could not determine video duration"@,
            FixSyncError::NoAudioDuration => "could not determine audio duration"@,
        }),
{
    reveal_strlit("ffprobe");
    reveal_strlit("ffmpeg");
    reveal_strlit("input");
    reveal_strlit(" not found: ");
    reveal_strlit("/usr/bin/ffprobe");
    reveal_strlit("/usr/bin/ffmpeg");
    reveal_strlit("ffprobe not found: /usr/bin/ffprobe");
    reveal_strlit("ffmpeg not found: /usr/bin/ffmpeg");
    reveal_strlit("input not found: ");
    assert("ffprobe"@ + " not found: "@ + "/usr/bin/ffprobe"@
        =~= "ffprobe not found: /usr/bin/ffprobe"@);
    assert("ffmpeg"@ + " not found: "@ + "/usr/bin/ffmpeg"@
        =~= "ffmpeg not found: /usr/bin/ffmpeg"@);
    assert("input"@ + " not found: "@ =~= "input not found: "@);
}

/// A tempo above two is doubled first, as often as it takes, and one below one
/// half is halved; what is left comes last.
pub proof fn law_factors_shape(u: nat)
    requires
        u > 0,
    ensures
        factors(u).len() > 0,
        factors(u).last() is Rest,
        forall|i: int|
            0 <= i < factors(u).len() - 1 ==> (if u > 2 * binary64::one() {
                #[trigger] factors(u)[i] is Two
            } else {
                factors(u)[i] is Half
            }),
        binary64::one() / 2 <= u <= 2 * binary64::one() ==> factors(u).len() == 1,
    decreases
            (if u > 2 * binary64::one() {
                u
            } else {
                (2 * binary64::one() - u) as nat
            }),
{
    lemma_pow2_pos(1074);
    let one = binary64::one();
    let list = factors(u);
    if u > 2 * one {
        let rest = factors(u / 2);
        law_factors_shape(u / 2);
        assert(list.last() == rest.last());
        assert forall|i: int| 0 <= i < list.len() - 1 implies #[trigger] list[i] is Two by {
            if i > 0 {
                assert(list[i] == rest[i - 1]);
            }
        }
    } else if u < one / 2 {
        let rest = factors(2 * u);
        law_factors_shape(2 * u);
        assert(list.last() == rest.last());
        assert forall|i: int| 0 <= i < list.len() - 1 implies #[trigger] list[i] is Half by {
            if i > 0 {
                assert(list[i] == rest[i - 1]);
            }
        }
    }
}

} // verus!
