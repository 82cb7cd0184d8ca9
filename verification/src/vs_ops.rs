//! The VapourSynth operations (deinterlacing, telecine removal, decimation).
//! Each is a two-process pipe, `vspipe -c y4m <script> - | ffmpeg ...`.
use crate::command::{CommandLine, Line, FFMPEG, FFPROBE};
use crate::config::Config;
use crate::encoding;
use crate::job::PipeJob;
use crate::path;
use crate::path::FilePath;
use crate::text;
use vstd::prelude::*;

verus! {

/// An operation on a capture.
#[derive(Clone, Copy, Debug, PartialEq, Eq, Structural)]
pub enum VsOp {
    Qtgmc,
    Ivtc,
    IvtcDecombed,
    FieldAlign,
    Vdecimate,
}

impl VsOp {
    /// The script's file name.
    pub open spec fn spec_vpy_filename(self) -> Seq<char> {
        match self {
            VsOp::Qtgmc => "qtgmc.vpy"@,
            VsOp::Ivtc => "ivtc.vpy"@,
            VsOp::IvtcDecombed => "ivtc_decombed.vpy"@,
            VsOp::FieldAlign => "field_align.vpy"@,
            VsOp::Vdecimate => "vdecimate.vpy"@,
        }
    }

    /// What the operation adds to the file name.
    pub open spec fn spec_output_suffix(self) -> Seq<char> {
        match self {
            VsOp::Qtgmc => "_QTGMC"@,
            VsOp::Ivtc => "_IVTC"@,
            VsOp::IvtcDecombed => "_IVTC_DECOMBED"@,
            VsOp::FieldAlign => "_ALIGNED"@,
            VsOp::Vdecimate => "_VD"@,
        }
    }

    /// The environment defaults of the script.
    pub open spec fn spec_env_defaults(self) -> Seq<(Seq<char>, Seq<char>)> {
        match self {
            VsOp::Qtgmc => seq![
                ("VS_TFF"@, "1"@),
                ("VS_FPSDIV"@, "2"@),
                ("VS_PRESET"@, "Slower"@),
            ],
            VsOp::Ivtc => seq![("VS_TFF"@, "1"@)],
            VsOp::IvtcDecombed => seq![("VS_TFF"@, "1"@), ("VS_DECOMB_PRESET"@, "Fast"@)],
            VsOp::FieldAlign => seq![
                ("VS_TFF"@, "1"@),
                ("VS_FIELD_SHIFT"@, "1.0"@),
                ("VS_SHIFT_FIELD"@, "bottom"@),
            ],
            VsOp::Vdecimate => Seq::empty(),
        }
    }

    /// The script's file name.
    pub fn vpy_filename(self) -> (r: &'static str)
        ensures
            r@ == self.spec_vpy_filename(),
            r@ == (match self {
                VsOp::Qtgmc => "qtgmc.vpy"@,
                VsOp::Ivtc => "ivtc.vpy"@,
                VsOp::IvtcDecombed => "ivtc_decombed.vpy"@,
                VsOp::FieldAlign => "field_align.vpy"@,
                VsOp::Vdecimate => "vdecimate.vpy"@,
            }),
    {
        match self {
            VsOp::Qtgmc => "qtgmc.vpy",
            VsOp::Ivtc => "ivtc.vpy",
            VsOp::IvtcDecombed => "ivtc_decombed.vpy",
            VsOp::FieldAlign => "field_align.vpy",
            VsOp::Vdecimate => "vdecimate.vpy",
        }
    }

    /// What the operation adds to the file name.
    pub fn output_suffix(self) -> (r: &'static str)
        ensures
            r@ == self.spec_output_suffix(),
            r@ == (match self {
                VsOp::Qtgmc => "_QTGMC"@,
                VsOp::Ivtc => "_IVTC"@,
                VsOp::IvtcDecombed => "_IVTC_DECOMBED"@,
                VsOp::FieldAlign => "_ALIGNED"@,
                VsOp::Vdecimate => "_VD"@,
            }),
    {
        match self {
            VsOp::Qtgmc => "_QTGMC",
            VsOp::Ivtc => "_IVTC",
            VsOp::IvtcDecombed => "_IVTC_DECOMBED",
            VsOp::FieldAlign => "_ALIGNED",
            VsOp::Vdecimate => "_VD",
        }
    }

    /// How the operation is named in job labels.
    pub fn label_verb(self) -> (r: &'static str)
        ensures
            r@ == (match self {
                VsOp::Qtgmc => "QTGMC"@,
                VsOp::Ivtc => "IVTC"@,
                VsOp::IvtcDecombed => "IVTC+Decomb"@,
                VsOp::FieldAlign => "Field Align"@,
                VsOp::Vdecimate => "VDecimate"@,
            }),
    {
        match self {
            VsOp::Qtgmc => "QTGMC",
            VsOp::Ivtc => "IVTC",
            VsOp::IvtcDecombed => "IVTC+Decomb",
            VsOp::FieldAlign => "Field Align",
            VsOp::Vdecimate => "VDecimate",
        }
    }

    /// The environment defaults of the script. `VS_INPUT`, the input path, is
    /// not among them.
    pub fn vs_env_defaults(self) -> (r: Vec<(&'static str, String)>)
        ensures
            env_texts(r@) == self.spec_env_defaults(),
    {
        let mut out: Vec<(&'static str, String)> = Vec::new();
        match self {
            VsOp::Qtgmc => {
                out.push(("VS_TFF", "1".to_string()));
                out.push(("VS_FPSDIV", "2".to_string()));
                out.push(("VS_PRESET", "Slower".to_string()));
            },
            VsOp::Ivtc => {
                out.push(("VS_TFF", "1".to_string()));
            },
            VsOp::IvtcDecombed => {
                out.push(("VS_TFF", "1".to_string()));
                out.push(("VS_DECOMB_PRESET", "Fast".to_string()));
            },
            VsOp::FieldAlign => {
                out.push(("VS_TFF", "1".to_string()));
                out.push(("VS_FIELD_SHIFT", "1.0".to_string()));
                out.push(("VS_SHIFT_FIELD", "bottom".to_string()));
            },
            VsOp::Vdecimate => {},
        }
        assert(env_texts(out@) =~= self.spec_env_defaults());
        out
    }

    /// Whether the input may lack an audio stream, so that it has to be probed
    /// for one. Only decimation runs on such inputs.
    pub fn needs_audio_probe(self) -> (r: bool)
        ensures
            r == (self is Vdecimate),
    {
        matches!(self, VsOp::Vdecimate)
    }
}

/// The texts behind a list of environment defaults.
pub open spec fn env_texts(list: Seq<(&str, String)>) -> Seq<(Seq<char>, Seq<char>)> {
    list.map_values(|e: (&str, String)| (e.0@, e.1@))
}

/// The output of `op` on `input`: `.mkv` at the end of the input's name is
/// replaced with the suffix of the operation and `.mkv`.
pub open spec fn spec_output_path(op: VsOp, input: Seq<u8>) -> Seq<u8> {
    path::spec_join(
        path::spec_dir_of(input),
        path::spec_raw_stem_of(input) + path::bytes_of(op.spec_output_suffix()) + path::bytes_of(
            ".mkv"@,
        ),
    )
}

/// The output of `op` on `input`, beside the input: `.mkv` at the end of the
/// input's name is replaced with the suffix of the operation and `.mkv`. The
/// other bytes of the name are kept, whether or not they are UTF-8.
pub fn output_path(op: VsOp, input: &FilePath) -> (r: FilePath)
    ensures
        r@ == spec_output_path(op, input@),
{
    let mut name = input.raw_stem_of();
    path::push_bytes(&mut name, op.output_suffix().as_bytes());
    path::push_bytes(&mut name, ".mkv".as_bytes());
    input.dir_of().join_bytes(name.as_slice())
}

/// The environment variables that tool lookup and the scripts depend on. A
/// variable that is unset, or whose value is not UTF-8, is `None`.
#[derive(Debug, PartialEq, Eq)]
pub struct ToolEnv {
    /// `HOME`
    pub home: Option<String>,
    /// `PATH`
    pub path: Option<String>,
    /// `PYTHONPATH`
    pub pythonpath: Option<String>,
}

/// The paths behind a list.
pub open spec fn path_bytes(list: Seq<FilePath>) -> Seq<Seq<u8>> {
    list.map_values(|p: FilePath| p@)
}

/// Where the tool `name` is looked for: in `bin` under the home directory,
/// then in each directory of `PATH`. Without `PATH`, nowhere.
pub open spec fn spec_search_list(name: Seq<char>, env: ToolEnv) -> Seq<Seq<u8>> {
    match env.path {
        Some(dirs) => (seq![text::or_empty(text::opt_text(env.home)) + "/bin"@] + text::spec_split(
            dirs@,
            ':',
        )).map_values(|dir: Seq<char>| path::spec_join(path::bytes_of(dir), path::bytes_of(name))),
        None => Seq::empty(),
    }
}

/// Where the tool `name` is looked for, in order.
pub fn find_in_path(name: &str, env: &ToolEnv) -> (r: Vec<FilePath>)
    ensures
        path_bytes(r@) == spec_search_list(name@, *env),
{
    let mut out: Vec<FilePath> = Vec::new();
    match &env.path {
        Some(dirs) => {
            let mut home_bin = text::copy_or_empty(&env.home);
            home_bin.append("/bin");
            out.push(FilePath::new(home_bin.as_str()).join(name));
            let pieces = text::split(dirs.as_str(), ':');
            let ghost all = seq![home_bin@] + text::views(pieces@);
            let ghost place = |dir: Seq<char>|
                path::spec_join(path::bytes_of(dir), path::bytes_of(name@));
            let mut k: usize = 0;
            assert(path_bytes(out@) =~= all.take(1).map_values(place));
            while k < pieces.len()
                invariant
                    k <= pieces.len(),
                    all == seq![home_bin@] + text::views(pieces@),
                    place == (|dir: Seq<char>|
                        path::spec_join(path::bytes_of(dir), path::bytes_of(name@))),
                    path_bytes(out@) == all.take(k + 1).map_values(place),
                decreases pieces.len() - k,
            {
                let ghost before = out@;
                out.push(FilePath::new(pieces[k]).join(name));
                k += 1;
                proof {
                    assert(all[k as int] == pieces@[k - 1]@);
                    assert(path_bytes(out@) =~= path_bytes(before).push(place(all[k as int])));
                    assert(all.take(k + 1) =~= all.take(k as int).push(all[k as int]));
                    assert(path_bytes(out@) =~= all.take(k + 1).map_values(place));
                }
            }
            proof {
                assert(all.take(k + 1) =~= all);
                assert(path_bytes(out@) =~= spec_search_list(name@, *env));
            }
        },
        None => {
            assert(path_bytes(out@) =~= spec_search_list(name@, *env));
        },
    }
    out
}

/// The first of `places` that can be run, where `runs` says of each whether it
/// can.
pub open spec fn spec_first_runnable(places: Seq<Seq<u8>>, runs: Seq<bool>) -> Option<Seq<u8>>
    decreases places.len(),
{
    if places.len() == 0 || runs.len() == 0 {
        None
    } else if runs[0] {
        Some(places[0])
    } else {
        spec_first_runnable(places.drop_first(), runs.drop_first())
    }
}

/// The search for a tool gives the place of the least index that can be run,
/// and fails exactly where none can.
pub proof fn law_first_runnable(places: Seq<Seq<u8>>, runs: Seq<bool>)
    requires
        places.len() == runs.len(),
    ensures
        spec_first_runnable(places, runs) is None <==> (forall|i: int|
            0 <= i < runs.len() ==> !#[trigger] runs[i]),
        forall|i: int|
            #![trigger runs[i]]
            0 <= i < runs.len() && runs[i] && (forall|j: int| 0 <= j < i ==> !runs[j])
                ==> spec_first_runnable(places, runs) == Some(places[i]),
    decreases places.len(),
{
    if places.len() > 0 && !runs[0] {
        let (p, r) = (places.drop_first(), runs.drop_first());
        law_first_runnable(p, r);
        assert forall|i: int|
            #![trigger runs[i]]
            0 <= i < runs.len() && runs[i] && (forall|j: int|
                0 <= j < i ==> !runs[j]) implies spec_first_runnable(places, runs) == Some(
            places[i],
        ) by {
            assert(r[i - 1] == runs[i]);
            assert forall|j: int| 0 <= j < i - 1 implies !r[j] by {
                assert(!runs[j + 1]);
            }
            assert(p[i - 1] == places[i]);
        }
        if forall|i: int| 0 <= i < r.len() ==> !#[trigger] r[i] {
            assert forall|i: int| 0 <= i < runs.len() implies !#[trigger] runs[i] by {
                if i > 0 {
                    assert(!r[i - 1]);
                }
            }
        } else {
            let k = choose|i: int| 0 <= i < r.len() && #[trigger] r[i];
            assert(runs[k + 1]);
        }
    }
}

/// The first of `places` that can be run, where `runs` says of each whether it
/// can.
pub fn first_runnable(places: Vec<FilePath>, runs: &[bool]) -> (r: Option<FilePath>)
    ensures
        match r {
            Some(p) => spec_first_runnable(path_bytes(places@), runs@) == Some(p@),
            None => spec_first_runnable(path_bytes(places@), runs@) is None,
        },
        match r {
            Some(p) => exists|i: int|
                #![trigger runs@[i]]
                0 <= i < places@.len() && i < runs@.len() && runs@[i] && p@ == places@[i]@ && (
                forall|j: int| 0 <= j < i ==> !runs@[j]),
            None => forall|i: int|
                #![trigger runs@[i]]
                0 <= i < places@.len() && i < runs@.len() ==> !runs@[i],
        },
{
    let ghost all = path_bytes(places@);
    let mut k: usize = 0;
    assert(all.skip(0) =~= all);
    assert(runs@.skip(0) =~= runs@);
    while k < places.len() && k < runs.len()
        invariant
            all == path_bytes(places@),
            k <= places@.len(),
            k <= runs@.len(),
            forall|j: int| 0 <= j < k ==> !#[trigger] runs@[j],
            spec_first_runnable(all, runs@) == spec_first_runnable(
                all.skip(k as int),
                runs@.skip(k as int),
            ),
        decreases places@.len() - k,
    {
        if runs[k] {
            return Some(places[k].copy());
        }
        proof {
            assert(all.skip(k as int).drop_first() =~= all.skip(k + 1));
            assert(runs@.skip(k as int).drop_first() =~= runs@.skip(k + 1));
        }
        k += 1;
    }
    None
}

/// Everything that was resolved before the pipe is built. `P` is a path: a
/// `FilePath`, or its bytes in specifications.
#[derive(Debug, PartialEq, Eq)]
pub struct Resolved<P> {
    pub vspipe: P,
    pub ffmpeg: P,
    pub output: P,
    pub has_audio: bool,
}

/// Why a pipe cannot be started.
#[derive(Debug, PartialEq, Eq)]
pub enum PreflightError<P> {
    InputNotFound(P),
    ScriptNotFound(VsOp, P),
    VspipeNotFound,
    FfmpegNotExecutable(P),
}

/// What has to be found out next before a pipe can be started.
#[derive(Debug, PartialEq, Eq)]
pub enum Preflight<P> {
    /// Whether the input is a file.
    Input,
    /// Whether the script is a file.
    Script,
    /// Where `vspipe` is.
    Vspipe,
    /// Whether `ffmpeg` is a runnable file.
    Ffmpeg(P),
    /// Whether the input has an audio stream.
    Audio(P),
}

/// What was found out. `F` is a list of answers.
#[derive(Debug, PartialEq, Eq)]
pub enum Finding<F> {
    /// An answer to a yes-or-no question.
    Holds(bool),
    /// Of each place where a tool is looked for, whether it can be run.
    Runs(F),
}

/// How preflight goes on.
#[derive(Debug, PartialEq, Eq)]
pub enum Progress<P> {
    Next(Preflight<P>),
    Failed(PreflightError<P>),
    Ready(Resolved<P>),
}

impl View for Resolved<FilePath> {
    type V = Resolved<Seq<u8>>;

    open spec fn view(&self) -> Resolved<Seq<u8>> {
        Resolved {
            vspipe: self.vspipe@,
            ffmpeg: self.ffmpeg@,
            output: self.output@,
            has_audio: self.has_audio,
        }
    }
}

impl View for PreflightError<FilePath> {
    type V = PreflightError<Seq<u8>>;

    open spec fn view(&self) -> PreflightError<Seq<u8>> {
        match *self {
            PreflightError::InputNotFound(p) => PreflightError::InputNotFound(p@),
            PreflightError::ScriptNotFound(op, p) => PreflightError::ScriptNotFound(op, p@),
            PreflightError::VspipeNotFound => PreflightError::VspipeNotFound,
            PreflightError::FfmpegNotExecutable(p) => PreflightError::FfmpegNotExecutable(p@),
        }
    }
}

impl View for Preflight<FilePath> {
    type V = Preflight<Seq<u8>>;

    open spec fn view(&self) -> Preflight<Seq<u8>> {
        match *self {
            Preflight::Input => Preflight::Input,
            Preflight::Script => Preflight::Script,
            Preflight::Vspipe => Preflight::Vspipe,
            Preflight::Ffmpeg(p) => Preflight::Ffmpeg(p@),
            Preflight::Audio(p) => Preflight::Audio(p@),
        }
    }
}

impl View for Finding<Vec<bool>> {
    type V = Finding<Seq<bool>>;

    open spec fn view(&self) -> Finding<Seq<bool>> {
        match *self {
            Finding::Holds(b) => Finding::Holds(b),
            Finding::Runs(list) => Finding::Runs(list@),
        }
    }
}

impl View for Progress<FilePath> {
    type V = Progress<Seq<u8>>;

    open spec fn view(&self) -> Progress<Seq<u8>> {
        match *self {
            Progress::Next(s) => Progress::Next(s@),
            Progress::Failed(e) => Progress::Failed(e@),
            Progress::Ready(r) => Progress::Ready(r@),
        }
    }
}

/// The script of `op` under the scripts directory.
pub open spec fn spec_vpy_path(op: VsOp, scripts_dir: Seq<u8>) -> Seq<u8> {
    path::spec_join(
        path::spec_join(scripts_dir, path::bytes_of("vhs-env/tools"@)),
        path::bytes_of(op.spec_vpy_filename()),
    )
}

/// The script of `op`.
pub fn vpy_path(cfg: &Config, op: VsOp) -> (r: FilePath)
    ensures
        r@ == spec_vpy_path(op, cfg.scripts_dir@),
{
    cfg.tools_dir().join(op.vpy_filename())
}

/// What is resolved for `op` on `input` once `vspipe` is found.
pub open spec fn spec_resolved(
    vspipe: Seq<u8>,
    op: VsOp,
    input: Seq<u8>,
    has_audio: bool,
) -> Resolved<Seq<u8>> {
    Resolved {
        vspipe,
        ffmpeg: path::bytes_of(FFMPEG@),
        output: spec_output_path(op, input),
        has_audio,
    }
}

/// How preflight goes on once `stage` has been answered with `finding`. A
/// finding of the other kind counts as a negative answer.
pub open spec fn spec_preflight(
    stage: Preflight<Seq<u8>>,
    finding: Finding<Seq<bool>>,
    op: VsOp,
    input: Seq<u8>,
    scripts_dir: Seq<u8>,
    env: ToolEnv,
) -> Progress<Seq<u8>> {
    match (stage, finding) {
        (Preflight::Input, Finding::Holds(true)) => Progress::Next(Preflight::Script),
        (Preflight::Input, _) => Progress::Failed(PreflightError::InputNotFound(input)),
        (Preflight::Script, Finding::Holds(true)) => Progress::Next(Preflight::Vspipe),
        (Preflight::Script, _) => Progress::Failed(
            PreflightError::ScriptNotFound(op, spec_vpy_path(op, scripts_dir)),
        ),
        (Preflight::Vspipe, Finding::Runs(runs)) => match spec_first_runnable(
            spec_search_list("vspipe"@, env),
            runs,
        ) {
            Some(p) => Progress::Next(Preflight::Ffmpeg(p)),
            None => Progress::Failed(PreflightError::VspipeNotFound),
        },
        (Preflight::Vspipe, _) => Progress::Failed(PreflightError::VspipeNotFound),
        (Preflight::Ffmpeg(p), Finding::Holds(true)) => if op is Vdecimate {
            Progress::Next(Preflight::Audio(p))
        } else {
            Progress::Ready(spec_resolved(p, op, input, true))
        },
        (Preflight::Ffmpeg(_), _) => Progress::Failed(
            PreflightError::FfmpegNotExecutable(path::bytes_of(FFMPEG@)),
        ),
        (Preflight::Audio(p), Finding::Holds(b)) => Progress::Ready(
            spec_resolved(p, op, input, b),
        ),
        (Preflight::Audio(p), _) => Progress::Ready(spec_resolved(p, op, input, false)),
    }
}

/// Validates inputs and tools one by one before anything is spawned: takes
/// what `stage` asked and was answered, and says what to ask next, why the
/// pipe cannot be started, or what was resolved.
pub fn preflight(
    stage: Preflight<FilePath>,
    finding: Finding<Vec<bool>>,
    op: VsOp,
    input: &FilePath,
    cfg: &Config,
    env: &ToolEnv,
) -> (r: Progress<FilePath>)
    ensures
        r@ == spec_preflight(stage@, finding@, op, input@, cfg.scripts_dir@, *env),
{
    match stage {
        Preflight::Input => match finding {
            Finding::Holds(true) => Progress::Next(Preflight::Script),
            _ => Progress::Failed(PreflightError::InputNotFound(input.copy())),
        },
        Preflight::Script => match finding {
            Finding::Holds(true) => Progress::Next(Preflight::Vspipe),
            _ => Progress::Failed(PreflightError::ScriptNotFound(op, vpy_path(cfg, op))),
        },
        Preflight::Vspipe => match finding {
            Finding::Runs(runs) => match first_runnable(
                find_in_path("vspipe", env),
                runs.as_slice(),
            ) {
                Some(p) => Progress::Next(Preflight::Ffmpeg(p)),
                None => Progress::Failed(PreflightError::VspipeNotFound),
            },
            _ => Progress::Failed(PreflightError::VspipeNotFound),
        },
        Preflight::Ffmpeg(p) => match finding {
            Finding::Holds(true) => if op.needs_audio_probe() {
                Progress::Next(Preflight::Audio(p))
            } else {
                Progress::Ready(resolved(p, op, input, true))
            },
            _ => Progress::Failed(PreflightError::FfmpegNotExecutable(FilePath::new(FFMPEG))),
        },
        Preflight::Audio(p) => match finding {
            Finding::Holds(b) => Progress::Ready(resolved(p, op, input, b)),
            _ => Progress::Ready(resolved(p, op, input, false)),
        },
    }
}

/// What is resolved for `op` on `input` once `vspipe` is found.
fn resolved(vspipe: FilePath, op: VsOp, input: &FilePath, has_audio: bool) -> (r: Resolved<
    FilePath,
>)
    ensures
        r@ == spec_resolved(vspipe@, op, input@, has_audio),
{
    Resolved {
        vspipe,
        ffmpeg: FilePath::new(FFMPEG),
        output: output_path(op, input),
        has_audio,
    }
}

/// The command that lists the first audio stream of `input`.
pub open spec fn spec_audio_probe(input: Seq<u8>) -> Line {
    Line::of(path::bytes_of(FFPROBE@)).texts(
        seq!["-v", "error", "-select_streams", "a:0", "-show_entries", "stream=index", "-of", "csv=p=0"],
    ).arg(input)
}

/// The command that lists the first audio stream of `input`.
pub fn audio_probe(input: &FilePath) -> (r: CommandLine)
    ensures
        r@ == spec_audio_probe(input@),
{
    let mut cmd = CommandLine::new(FilePath::new(FFPROBE));
    cmd.texts(
        &["-v", "error", "-select_streams", "a:0", "-show_entries", "stream=index", "-of", "csv=p=0"],
    );
    cmd.arg(input.as_bytes());
    cmd
}

/// What the caller has to find out for a preflight stage.
#[derive(Debug, PartialEq, Eq)]
pub enum Question {
    /// Is this a file?
    IsFile(FilePath),
    /// Is this a file that can be run?
    IsRunnable(FilePath),
    /// Which of these are files that can be run?
    WhichRun(Vec<FilePath>),
    /// Does this command list a stream?
    Lists(CommandLine),
}

/// What the caller has to find out for `stage`.
pub fn question(
    stage: &Preflight<FilePath>,
    op: VsOp,
    input: &FilePath,
    cfg: &Config,
    env: &ToolEnv,
) -> (r: Question)
    ensures
        match stage {
            Preflight::Input => r matches Question::IsFile(p) && p@ == input@,
            Preflight::Script => r matches Question::IsFile(p) && p@ == spec_vpy_path(
                op,
                cfg.scripts_dir@,
            ),
            Preflight::Vspipe => r matches Question::WhichRun(list) && path_bytes(list@)
                == spec_search_list("vspipe"@, *env),
            Preflight::Ffmpeg(_) => r matches Question::IsRunnable(p) && p@ == path::bytes_of(
                FFMPEG@,
            ),
            Preflight::Audio(_) => r matches Question::Lists(cmd) && cmd@ == spec_audio_probe(
                input@,
            ),
        },
{
    match stage {
        Preflight::Input => Question::IsFile(input.copy()),
        Preflight::Script => Question::IsFile(vpy_path(cfg, op)),
        Preflight::Vspipe => Question::WhichRun(find_in_path("vspipe", env)),
        Preflight::Ffmpeg(_) => Question::IsRunnable(FilePath::new(FFMPEG)),
        Preflight::Audio(_) => Question::Lists(audio_probe(input)),
    }
}

impl PreflightError<FilePath> {
    /// What the user is told, with the path shown as `shown`.
    pub open spec fn spec_message(self, shown: Seq<char>) -> Seq<char> {
        match self {
            PreflightError::InputNotFound(_) => "input"@ + " not found: "@ + shown,
            PreflightError::ScriptNotFound(op, _) => op.spec_vpy_filename() + " not found: "@
                + shown,
            PreflightError::VspipeNotFound => "vspipe not found in PATH"@,
            PreflightError::FfmpegNotExecutable(_) => "ffmpeg not executable: "@ + shown,
        }
    }

    /// The path that the error is about, if it is about one.
    pub open spec fn spec_path(self) -> Seq<u8> {
        match self {
            PreflightError::InputNotFound(p) => p@,
            PreflightError::ScriptNotFound(_, p) => p@,
            PreflightError::VspipeNotFound => Seq::empty(),
            PreflightError::FfmpegNotExecutable(p) => p@,
        }
    }

    /// What the user is told, with the path shown as `shown`.
    pub fn message_showing(&self, shown: &str) -> (r: String)
        ensures
            r@ == self.spec_message(shown@),
    {
        match self {
            PreflightError::InputNotFound(_) => encoding::not_found("input", shown),
            PreflightError::ScriptNotFound(op, _) => encoding::not_found(op.vpy_filename(), shown),
            PreflightError::VspipeNotFound => "vspipe not found in PATH".to_string(),
            PreflightError::FfmpegNotExecutable(_) => {
                let mut out = "ffmpeg not executable: ".to_string();
                out.append(shown);
                out
            },
        }
    }

    /// What the user is told. A path in UTF-8 is shown as the text it is.
    pub fn message(&self) -> (r: String)
        ensures
            r@ == self.spec_message(encoding::utf8_lossy(self.spec_path())),
            vstd::utf8::valid_utf8(self.spec_path()) ==> r@ == self.spec_message(
                vstd::utf8::decode_utf8(self.spec_path()),
            ),
    {
        let shown = match self {
            PreflightError::InputNotFound(p) => encoding::lossy(p.as_bytes()),
            PreflightError::ScriptNotFound(_, p) => encoding::lossy(p.as_bytes()),
            PreflightError::VspipeNotFound => String::new(),
            PreflightError::FfmpegNotExecutable(p) => encoding::lossy(p.as_bytes()),
        };
        self.message_showing(shown.as_str())
    }
}

/// Whether a stream listing names a stream: anything but whitespace does.
pub fn lists_stream(listing: &str) -> (r: bool)
    ensures
        r == (text::spec_trim(listing@).len() > 0),
{
    !text::trim(listing).is_empty()
}

/// Whether the input has an audio stream, from what the audio probe wrote.
/// A probe that could not be run counts as no audio.
pub fn probe_has_audio(stdout: Option<&[u8]>) -> (r: bool)
    ensures
        r == (match stdout {
            Some(bytes) => text::spec_trim(encoding::utf8_lossy(bytes@)).len() > 0,
            None => false,
        }),
        stdout matches Some(bytes) && vstd::utf8::valid_utf8(bytes@) ==> r == (text::spec_trim(
            vstd::utf8::decode_utf8(stdout->0@),
        ).len() > 0),
{
    match stdout {
        Some(bytes) => lists_stream(encoding::lossy(bytes).as_str()),
        None => false,
    }
}

/// Where Python looks for the VapourSynth modules: the repository under the
/// home directory, then whatever was set before.
pub open spec fn spec_pythonpath(env: ToolEnv) -> Seq<char> {
    let own = text::or_empty(text::opt_text(env.home)) + "/.local/share/vsrepo/py"@;
    if text::or_empty(text::opt_text(env.pythonpath)).len() == 0 {
        own
    } else {
        own + ":"@ + text::or_empty(text::opt_text(env.pythonpath))
    }
}

/// The `vspipe` side of the pipe.
pub open spec fn spec_vspipe(
    op: VsOp,
    scripts_dir: Seq<u8>,
    input: Seq<u8>,
    r: Resolved<Seq<u8>>,
    env: ToolEnv,
) -> Line {
    Line::of(r.vspipe).texts(seq!["-c", "y4m"]).arg(spec_vpy_path(op, scripts_dir)).text("-"@).env(
        "VS_INPUT"@,
        input,
    ).text_envs(op.spec_env_defaults()).env("PYTHONPATH"@, path::bytes_of(spec_pythonpath(env)))
}

/// Builds the `vspipe` side of the pipe: arguments and environment.
pub fn build_vspipe(
    op: VsOp,
    cfg: &Config,
    input: &FilePath,
    r: &Resolved<FilePath>,
    env: &ToolEnv,
) -> (cmd: CommandLine)
    ensures
        cmd@ == spec_vspipe(op, cfg.scripts_dir@, input@, r@, *env),
{
    let mut cmd = CommandLine::new(r.vspipe.copy());
    cmd.texts(&["-c", "y4m"]);
    cmd.arg(vpy_path(cfg, op).as_bytes());
    cmd.text("-");
    cmd.env("VS_INPUT", input.as_bytes());
    let ghost start = cmd@;
    let defaults = op.vs_env_defaults();
    let mut k: usize = 0;
    assert(start.text_envs(env_texts(defaults@).take(0)) =~= start);
    while k < defaults.len()
        invariant
            k <= defaults.len(),
            cmd@ == start.text_envs(env_texts(defaults@).take(k as int)),
        decreases defaults.len() - k,
    {
        cmd.env(defaults[k].0, defaults[k].1.as_str().as_bytes());
        k += 1;
        assert(cmd@ =~= start.text_envs(env_texts(defaults@).take(k as int)));
    }
    assert(env_texts(defaults@).take(k as int) =~= op.spec_env_defaults());
    let mut pythonpath = text::copy_or_empty(&env.home);
    pythonpath.append("/.local/share/vsrepo/py");
    let existing = text::copy_or_empty(&env.pythonpath);
    if !existing.as_str().is_empty() {
        pythonpath.append(":");
        pythonpath.append(existing.as_str());
    }
    cmd.env("PYTHONPATH", pythonpath.as_str().as_bytes());
    cmd
}

/// The `ffmpeg` side of the pipe.
pub open spec fn spec_ffmpeg(input: Seq<u8>, r: Resolved<Seq<u8>>) -> Line {
    let base = Line::of(r.ffmpeg).texts(
        seq!["-hide_banner", "-nostdin", "-y", "-thread_queue_size", "1024", "-f", "yuv4mpegpipe", "-i", "-"],
    );
    let streams = if r.has_audio {
        base.texts(seq!["-thread_queue_size", "1024", "-i"]).arg(input).texts(
            seq!["-map", "0:v:0", "-map", "1:a:0", "-c:v", "ffv1", "-level", "3", "-pix_fmt", "yuv422p", "-c:a", "copy", "-shortest"],
        )
    } else {
        base.texts(seq!["-c:v", "ffv1", "-level", "3", "-pix_fmt", "yuv422p"])
    };
    streams.arg(r.output)
}

/// Builds the `ffmpeg` side of the pipe. Audio is copied from `input` where
/// there is any.
pub fn build_ffmpeg(input: &FilePath, r: &Resolved<FilePath>) -> (cmd: CommandLine)
    ensures
        cmd@ == spec_ffmpeg(input@, r@),
{
    let mut cmd = CommandLine::new(r.ffmpeg.copy());
    cmd.texts(
        &["-hide_banner", "-nostdin", "-y", "-thread_queue_size", "1024", "-f", "yuv4mpegpipe", "-i", "-"],
    );
    if r.has_audio {
        cmd.texts(&["-thread_queue_size", "1024", "-i"]);
        cmd.arg(input.as_bytes());
        cmd.texts(
            &["-map", "0:v:0", "-map", "1:a:0", "-c:v", "ffv1", "-level", "3", "-pix_fmt", "yuv422p", "-c:a", "copy", "-shortest"],
        );
    } else {
        cmd.texts(&["-c:v", "ffv1", "-level", "3", "-pix_fmt", "yuv422p"]);
    }
    cmd.arg(r.output.as_bytes());
    cmd
}

/// The pipe job for `op` on `input`, once preflight has resolved everything.
pub fn launch(
    op: VsOp,
    input: &FilePath,
    cfg: &Config,
    label: String,
    resolved: &Resolved<FilePath>,
    env: &ToolEnv,
) -> (r: PipeJob)
    ensures
        r.label == label,
        r.input@ == input@,
        r.producer@ == spec_vspipe(op, cfg.scripts_dir@, input@, resolved@, *env),
        r.consumer@ == spec_ffmpeg(input@, resolved@),
        r.log_dir@ == path::spec_join(cfg.videos_dir@, path::bytes_of("logs"@)),
{
    PipeJob {
        label,
        input: input.copy(),
        producer: build_vspipe(op, cfg, input, resolved, env),
        consumer: build_ffmpeg(input, resolved),
        log_dir: cfg.log_dir(),
    }
}

/// The state of the machine that preflight asks about.
#[verifier::ext_equal]
pub struct Facts {
    pub input_is_file: bool,
    pub script_is_file: bool,
    /// Of each place where `vspipe` is looked for, whether it can be run.
    pub places_run: Seq<bool>,
    pub ffmpeg_runs: bool,
    pub lists_audio: bool,
}

/// The answer that the facts give to `stage`.
pub open spec fn finding_of(stage: Preflight<Seq<u8>>, facts: Facts) -> Finding<Seq<bool>> {
    match stage {
        Preflight::Input => Finding::Holds(facts.input_is_file),
        Preflight::Script => Finding::Holds(facts.script_is_file),
        Preflight::Vspipe => Finding::Runs(facts.places_run),
        Preflight::Ffmpeg(_) => Finding::Holds(facts.ffmpeg_runs),
        Preflight::Audio(_) => Finding::Holds(facts.lists_audio),
    }
}

/// Preflight from `stage` on, for at most `fuel` questions.
pub open spec fn run_preflight(
    stage: Preflight<Seq<u8>>,
    facts: Facts,
    op: VsOp,
    input: Seq<u8>,
    scripts_dir: Seq<u8>,
    env: ToolEnv,
    fuel: nat,
) -> Progress<Seq<u8>>
    decreases fuel,
{
    if fuel == 0 {
        Progress::Next(stage)
    } else {
        match spec_preflight(stage, finding_of(stage, facts), op, input, scripts_dir, env) {
            Progress::Next(next) => run_preflight(
                next,
                facts,
                op,
                input,
                scripts_dir,
                env,
                (fuel - 1) as nat,
            ),
            done => done,
        }
    }
}

/// Preflight ends after five questions at most. It resolves exactly when the
/// input and the script are files, `vspipe` can be run in one of its places and
/// `ffmpeg` can be run; otherwise it reports the first of these that does not
/// hold. The first such place is taken. Audio is taken for granted except for
/// decimation, which goes by the stream listing.
pub proof fn law_preflight_decides(
    facts: Facts,
    op: VsOp,
    input: Seq<u8>,
    scripts_dir: Seq<u8>,
    env: ToolEnv,
)
    ensures
        run_preflight(Preflight::Input, facts, op, input, scripts_dir, env, 5) == (
        if !facts.input_is_file {
            Progress::Failed(PreflightError::InputNotFound(input))
        } else if !facts.script_is_file {
            Progress::Failed(
                PreflightError::ScriptNotFound(op, spec_vpy_path(op, scripts_dir)),
            )
        } else if spec_first_runnable(
            spec_search_list("vspipe"@, env),
            facts.places_run,
        ) is None {
            Progress::Failed(PreflightError::VspipeNotFound)
        } else if !facts.ffmpeg_runs {
            Progress::Failed(
                PreflightError::FfmpegNotExecutable(path::bytes_of("/usr/bin/ffmpeg"@)),
            )
        } else {
            Progress::Ready(
                Resolved {
                    vspipe: spec_first_runnable(
                        spec_search_list("vspipe"@, env),
                        facts.places_run,
                    )->0,
                    ffmpeg: path::bytes_of("/usr/bin/ffmpeg"@),
                    output: spec_output_path(op, input),
                    has_audio: op is Vdecimate ==> facts.lists_audio,
                },
            )
        }),
{
    reveal_with_fuel(run_preflight, 6);
}

/// The bytes of an operation's suffix.
proof fn lemma_suffix(op: VsOp)
    ensures
        ({
            let tail = path::bytes_of(op.spec_output_suffix());
            &&& tail.len() == op.spec_output_suffix().len() >= 3
            &&& forall|i: int| 0 <= i < tail.len() ==> tail[i] != path::SEP
            &&& vstd::utf8::valid_utf8(tail)
            &&& (tail[tail.len() - 3], tail[tail.len() - 2]) == (match op {
                VsOp::Qtgmc => (71u8, 77u8),
                VsOp::Ivtc => (86u8, 84u8),
                VsOp::IvtcDecombed => (66u8, 69u8),
                VsOp::FieldAlign => (78u8, 69u8),
                VsOp::Vdecimate => (95u8, 86u8),
            })
            &&& op is Vdecimate ==> tail.len() == 3 && tail[2] == 68
        }),
{
    reveal_strlit("_QTGMC");
    reveal_strlit("_IVTC");
    reveal_strlit("_IVTC_DECOMBED");
    reveal_strlit("_ALIGNED");
    reveal_strlit("_VD");
    path::lemma_ascii_bytes(op.spec_output_suffix());
    vstd::utf8::encode_utf8_valid_utf8(op.spec_output_suffix());
}

/// An operation never writes onto its input: the output lies beside the input
/// under another name.
pub proof fn law_output_is_not_input(op: VsOp, input: Seq<u8>)
    ensures
        spec_output_path(op, input) != input,
        path::spec_file_name(spec_output_path(op, input)) != path::spec_file_name(input),
        path::spec_parent(spec_output_path(op, input)) == Some(path::spec_dir_of(input)),
{
    lemma_suffix(op);
    path::lemma_raw_derived_file(input, path::bytes_of(op.spec_output_suffix()));
}

/// Decimation, and it alone, yields a file whose name ends in `_VD.mkv`,
/// which is how decimated masters are told from the others.
pub proof fn law_decimated_name(op: VsOp, input: Seq<u8>)
    ensures
        path::spec_file_name(spec_output_path(op, input)) matches Some(name) && (
        path::spec_ends_with(name, path::bytes_of("_VD.mkv"@)) <==> op is Vdecimate),
{
    lemma_suffix(op);
    reveal_strlit("_VD.mkv");
    reveal_strlit(".mkv");
    path::lemma_ascii_bytes("_VD.mkv"@);
    path::lemma_ascii_bytes(".mkv"@);
    path::lemma_raw_derived_file(input, path::bytes_of(op.spec_output_suffix()));
    let stem = path::spec_raw_stem_of(input);
    let tail = path::bytes_of(op.spec_output_suffix());
    let mkv = path::bytes_of(".mkv"@);
    let vd = path::bytes_of("_VD.mkv"@);
    let name = stem + tail + mkv;
    let end = name.skip(name.len() - 7);
    assert(end[0] == tail[tail.len() - 3]);
    assert(end[1] == tail[tail.len() - 2]);
    assert(end[2] == tail[tail.len() - 1]);
    if op is Vdecimate {
        assert(end =~= vd);
    } else {
        assert(vd[1] == 86);
    }
}

/// No two runs write to one file: outputs differ wherever the operation, the
/// directory or, for files that end in `.mkv`, the file name or the parent
/// differs.
pub proof fn law_outputs_are_not_shared(a: VsOp, b: VsOp, x: Seq<u8>, y: Seq<u8>)
    requires
        ({
            ||| a != b
            ||| path::spec_dir_of(x) != path::spec_dir_of(y)
            ||| path::is_mkv(x) && path::is_mkv(y) && (path::spec_file_name(x)
                != path::spec_file_name(y) || path::spec_parent(x) != path::spec_parent(y))
        }),
    ensures
        spec_output_path(a, x) != spec_output_path(b, y),
{
    lemma_suffix(a);
    lemma_suffix(b);
    let (tail_a, tail_b) = (
        path::bytes_of(a.spec_output_suffix()),
        path::bytes_of(b.spec_output_suffix()),
    );
    path::lemma_raw_derived_file(x, tail_a);
    path::lemma_raw_derived_file(y, tail_b);
    let (s, t) = (path::spec_raw_stem_of(x), path::spec_raw_stem_of(y));
    if a != b {
        lemma_suffixes_tell(a, b, s, t);
    } else if path::spec_dir_of(x) == path::spec_dir_of(y) {
        path::lemma_mkv_name(x);
        path::lemma_mkv_name(y);
        lemma_stems_tell(s, t, tail_a);
    }
}

/// Names made for different operations differ, whatever they start with: the
/// last letters of the suffixes tell them apart.
proof fn lemma_suffixes_tell(a: VsOp, b: VsOp, s: Seq<u8>, t: Seq<u8>)
    requires
        a != b,
    ensures
        s + path::bytes_of(a.spec_output_suffix()) + path::bytes_of(".mkv"@) != t + path::bytes_of(
            b.spec_output_suffix(),
        ) + path::bytes_of(".mkv"@),
{
    lemma_suffix(a);
    lemma_suffix(b);
    let (tail_a, tail_b) = (
        path::bytes_of(a.spec_output_suffix()),
        path::bytes_of(b.spec_output_suffix()),
    );
    let mkv = path::bytes_of(".mkv"@);
    let (m, n) = (s + tail_a + mkv, t + tail_b + mkv);
    let (i, j) = (m.len() - mkv.len(), n.len() - mkv.len());
    assert(m[i - 3] == tail_a[tail_a.len() - 3] && n[j - 3] == tail_b[tail_b.len() - 3]);
    assert(m[i - 2] == tail_a[tail_a.len() - 2] && n[j - 2] == tail_b[tail_b.len() - 2]);
}

/// Names with different stems and one suffix differ.
proof fn lemma_stems_tell(s: Seq<u8>, t: Seq<u8>, tail: Seq<u8>)
    requires
        s != t,
    ensures
        s + tail + path::bytes_of(".mkv"@) != t + tail + path::bytes_of(".mkv"@),
{
    let mkv = path::bytes_of(".mkv"@);
    let (m, n) = (s + tail + mkv, t + tail + mkv);
    if m == n {
        assert(m.len() == n.len());
        assert(s =~= m.take(s.len() as int));
        assert(t =~= n.take(t.len() as int));
    }
}

/// Every operation runs its own script, which lies among the tools: `vspipe`
/// is asked for the raw video of that script on its standard output.
pub proof fn law_each_op_runs_its_script(
    op: VsOp,
    scripts_dir: Seq<u8>,
    input: Seq<u8>,
    r: Resolved<Seq<u8>>,
    env: ToolEnv,
)
    ensures
        ({
            let name = match op {
                VsOp::Qtgmc => "qtgmc.vpy"@,
                VsOp::Ivtc => "ivtc.vpy"@,
                VsOp::IvtcDecombed => "ivtc_decombed.vpy"@,
                VsOp::FieldAlign => "field_align.vpy"@,
                VsOp::Vdecimate => "vdecimate.vpy"@,
            };
            let tools = path::spec_join(scripts_dir, path::bytes_of("vhs-env/tools"@));
            let script = path::spec_join(tools, path::bytes_of(name));
            let producer = spec_vspipe(op, scripts_dir, input, r, env);
            &&& op.spec_vpy_filename() == name
            &&& spec_vpy_path(op, scripts_dir) == script
            &&& path::spec_file_name(script) == Some(path::bytes_of(name))
            &&& path::spec_parent(script) == Some(path::trimmed(tools))
            &&& producer.program == r.vspipe
            &&& producer.args == seq![
                path::bytes_of("-c"@),
                path::bytes_of("y4m"@),
                script,
                path::bytes_of("-"@),
            ]
        }),
{
    lemma_script_name(op);
    let tools = path::spec_join(scripts_dir, path::bytes_of("vhs-env/tools"@));
    path::law_join_splits_again(tools, path::bytes_of(op.spec_vpy_filename()));
}

/// The name of a script is a file name.
proof fn lemma_script_name(op: VsOp)
    ensures
        path::is_name(path::bytes_of(op.spec_vpy_filename())),
{
    reveal_strlit("qtgmc.vpy");
    reveal_strlit("ivtc.vpy");
    reveal_strlit("ivtc_decombed.vpy");
    reveal_strlit("field_align.vpy");
    reveal_strlit("vdecimate.vpy");
    path::lemma_ascii_bytes(op.spec_vpy_filename());
}

/// No two operations run the same script.
pub proof fn law_scripts_are_not_shared(a: VsOp, b: VsOp, scripts_dir: Seq<u8>)
    requires
        a != b,
    ensures
        spec_vpy_path(a, scripts_dir) != spec_vpy_path(b, scripts_dir),
        path::spec_file_name(spec_vpy_path(a, scripts_dir)) != path::spec_file_name(
            spec_vpy_path(b, scripts_dir),
        ),
{
    lemma_script_name(a);
    lemma_script_name(b);
    let tools = path::spec_join(scripts_dir, path::bytes_of("vhs-env/tools"@));
    path::law_join_splits_again(tools, path::bytes_of(a.spec_vpy_filename()));
    path::law_join_splits_again(tools, path::bytes_of(b.spec_vpy_filename()));
    path::law_bytes_are_faithful(a.spec_vpy_filename(), b.spec_vpy_filename());
    reveal_strlit("qtgmc.vpy");
    reveal_strlit("ivtc.vpy");
    reveal_strlit("ivtc_decombed.vpy");
    reveal_strlit("field_align.vpy");
    reveal_strlit("vdecimate.vpy");
    let (x, y) = (a.spec_vpy_filename(), b.spec_vpy_filename());
    if x == y {
        assert(x.len() == y.len() && x[0] == y[0] && x[4] == y[4]);
    }
}

/// A script finds its input in `VS_INPUT`, then the defaults of its operation,
/// then the path for Python modules; nothing else is set.
pub proof fn law_script_environment(
    op: VsOp,
    scripts_dir: Seq<u8>,
    input: Seq<u8>,
    r: Resolved<Seq<u8>>,
    env: ToolEnv,
)
    ensures
        ({
            let python = (
                path::bytes_of("PYTHONPATH"@),
                path::bytes_of(spec_pythonpath(env)),
            );
            let source = (path::bytes_of("VS_INPUT"@), input);
            let top_first = (path::bytes_of("VS_TFF"@), path::bytes_of("1"@));
            spec_vspipe(op, scripts_dir, input, r, env).envs == (match op {
                VsOp::Qtgmc => seq![
                    source,
                    top_first,
                    (path::bytes_of("VS_FPSDIV"@), path::bytes_of("2"@)),
                    (path::bytes_of("VS_PRESET"@), path::bytes_of("Slower"@)),
                    python,
                ],
                VsOp::Ivtc => seq![source, top_first, python],
                VsOp::IvtcDecombed => seq![
                    source,
                    top_first,
                    (path::bytes_of("VS_DECOMB_PRESET"@), path::bytes_of("Fast"@)),
                    python,
                ],
                VsOp::FieldAlign => seq![
                    source,
                    top_first,
                    (path::bytes_of("VS_FIELD_SHIFT"@), path::bytes_of("1.0"@)),
                    (path::bytes_of("VS_SHIFT_FIELD"@), path::bytes_of("bottom"@)),
                    python,
                ],
                VsOp::Vdecimate => seq![source, python],
            })
        }),
{
    let envs = spec_vspipe(op, scripts_dir, input, r, env).envs;
    match op {
        VsOp::Qtgmc => {
            assert(envs.len() == 5);
        },
        VsOp::Ivtc => {
            assert(envs.len() == 3);
        },
        VsOp::IvtcDecombed => {
            assert(envs.len() == 4);
        },
        VsOp::FieldAlign => {
            assert(envs.len() == 5);
        },
        VsOp::Vdecimate => {
            assert(envs.len() == 2);
        },
    }
}

/// Python looks into the repository under the home directory first; whatever
/// was set before follows behind a colon.
pub proof fn law_pythonpath(env: ToolEnv)
    ensures
        ({
            let home = match env.home {
                Some(h) => h@,
                None => Seq::empty(),
            };
            let own = home + "/.local/share/vsrepo/py"@;
            spec_pythonpath(env) == (match env.pythonpath {
                Some(more) => if more@.len() > 0 {
                    own + ":"@ + more@
                } else {
                    own
                },
                None => own,
            })
        }),
{
}

/// With audio the encoder copies the first audio stream of the input beside
/// the piped video; without, it takes the video alone. The output comes last.
#[verifier::spinoff_prover]
#[verifier::rlimit(100)]
pub proof fn law_encoder_is_complete(input: Seq<u8>, r: Resolved<Seq<u8>>)
    ensures
        spec_ffmpeg(input, r).program == r.ffmpeg,
        spec_ffmpeg(input, r).envs.len() == 0,
        r.has_audio ==> spec_ffmpeg(input, r).args == seq![
            path::bytes_of("-hide_banner"@),
            path::bytes_of("-nostdin"@),
            path::bytes_of("-y"@),
            path::bytes_of("-thread_queue_size"@),
            path::bytes_of("1024"@),
            path::bytes_of("-f"@),
            path::bytes_of("yuv4mpegpipe"@),
            path::bytes_of("-i"@),
            path::bytes_of("-"@),
            path::bytes_of("-thread_queue_size"@),
            path::bytes_of("1024"@),
            path::bytes_of("-i"@),
            input,
            path::bytes_of("-map"@),
            path::bytes_of("0:v:0"@),
            path::bytes_of("-map"@),
            path::bytes_of("1:a:0"@),
            path::bytes_of("-c:v"@),
            path::bytes_of("ffv1"@),
            path::bytes_of("-level"@),
            path::bytes_of("3"@),
            path::bytes_of("-pix_fmt"@),
            path::bytes_of("yuv422p"@),
            path::bytes_of("-c:a"@),
            path::bytes_of("copy"@),
            path::bytes_of("-shortest"@),
            r.output,
        ],
        !r.has_audio ==> spec_ffmpeg(input, r).args == seq![
            path::bytes_of("-hide_banner"@),
            path::bytes_of("-nostdin"@),
            path::bytes_of("-y"@),
            path::bytes_of("-thread_queue_size"@),
            path::bytes_of("1024"@),
            path::bytes_of("-f"@),
            path::bytes_of("yuv4mpegpipe"@),
            path::bytes_of("-i"@),
            path::bytes_of("-"@),
            path::bytes_of("-c:v"@),
            path::bytes_of("ffv1"@),
            path::bytes_of("-level"@),
            path::bytes_of("3"@),
            path::bytes_of("-pix_fmt"@),
            path::bytes_of("yuv422p"@),
            r.output,
        ],
{
}

/// The audio probe lists the index of the first audio stream of the input.
pub proof fn law_audio_probe_is_complete(input: Seq<u8>)
    ensures
        spec_audio_probe(input).program == path::bytes_of("/usr/bin/ffprobe"@),
        spec_audio_probe(input).envs.len() == 0,
        spec_audio_probe(input).args == seq![
            path::bytes_of("-v"@),
            path::bytes_of("error"@),
            path::bytes_of("-select_streams"@),
            path::bytes_of("a:0"@),
            path::bytes_of("-show_entries"@),
            path::bytes_of("stream=index"@),
            path::bytes_of("-of"@),
            path::bytes_of("csv=p=0"@),
            input,
        ],
{
}

/// The output of an operation stands beside the input. Its name is that of the
/// input, with the suffix of the operation before `.mkv`; a name without
/// `.mkv` gets both at its end.
pub proof fn law_output_name(op: VsOp, dir: Seq<u8>, name: Seq<u8>)
    ensures
        ({
            let suffix = match op {
                VsOp::Qtgmc => "_QTGMC"@,
                VsOp::Ivtc => "_IVTC"@,
                VsOp::IvtcDecombed => "_IVTC_DECOMBED"@,
                VsOp::FieldAlign => "_ALIGNED"@,
                VsOp::Vdecimate => "_VD"@,
            };
            let mkv = path::bytes_of(".mkv"@);
            let out = name + path::bytes_of(suffix) + mkv;
            &&& path::is_name(name + mkv) ==> spec_output_path(
                op,
                path::spec_join(dir, name + mkv),
            ) == path::spec_join(path::trimmed(dir), out)
            &&& path::is_name(name) && !path::spec_ends_with(name, mkv) ==> spec_output_path(
                op,
                path::spec_join(dir, name),
            ) == path::spec_join(path::trimmed(dir), out)
        }),
{
    let mkv = path::bytes_of(".mkv"@);
    if path::is_name(name + mkv) {
        path::law_join_splits_again(dir, name + mkv);
        path::law_suffix_comes_off(name, mkv);
    }
    if path::is_name(name) {
        path::law_join_splits_again(dir, name);
    }
}

/// A tool is looked for in `bin` under the home directory first, then in the
/// directories of `PATH` from left to right. Without `PATH` it is not found.
pub proof fn law_search_order(name: Seq<char>, env: ToolEnv, first: Seq<char>, rest: Seq<char>)
    requires
        forall|i: int| 0 <= i < first.len() ==> first[i] != ':',
    ensures
        env.path is None ==> spec_search_list(name, env).len() == 0,
        ({
            let home = match env.home {
                Some(h) => h@,
                None => Seq::empty(),
            };
            let tool = path::bytes_of(name);
            let own = path::spec_join(path::bytes_of(home + "/bin"@), tool);
            let next = path::spec_join(path::bytes_of(first), tool);
            let list = spec_search_list(name, env);
            &&& env.path is Some && env.path->0@ == first ==> list == seq![own, next]
            &&& env.path is Some && env.path->0@ == first + seq![':'] + rest ==> {
                let more = text::spec_split(rest, ':');
                &&& list.len() == 2 + more.len()
                &&& list[0] == own
                &&& list[1] == next
                &&& forall|i: int|
                    0 <= i < more.len() ==> list[i + 2] == path::spec_join(
                        path::bytes_of(#[trigger] more[i]),
                        tool,
                    )
            }
        }),
{
    text::law_split_takes_pieces(first, ':', rest);
    if env.path is Some && env.path->0@ == first {
        let list = spec_search_list(name, env);
        assert(list.len() == 2);
    }
}

/// What is told: what was not found or cannot be run, and where.
pub proof fn law_messages(error: PreflightError<FilePath>, shown: Seq<char>)
    ensures
        error.spec_message(shown) == (match error {
            PreflightError::InputNotFound(_) => "input not found: "@ + shown,
            PreflightError::ScriptNotFound(op, _) => (match op {
                VsOp::Qtgmc => "qtgmc.vpy"@,
                VsOp::Ivtc => "ivtc.vpy"@,
                VsOp::IvtcDecombed => "ivtc_decombed.vpy"@,
                VsOp::FieldAlign => "field_align.vpy"@,
                VsOp::Vdecimate => "vdecimate.vpy"@,
            }) + " not found: "@ + shown,
            PreflightError::VspipeNotFound => "vspipe not found in PATH"@,
            PreflightError::FfmpegNotExecutable(_) => "ffmpeg not executable: "@ + shown,
        }),
        error matches PreflightError::InputNotFound(p) ==> error.spec_path() == p@,
        error matches PreflightError::ScriptNotFound(_, p) ==> error.spec_path() == p@,
        error matches PreflightError::FfmpegNotExecutable(p) ==> error.spec_path() == p@,
{
    reveal_strlit("input");
    reveal_strlit(" not found: ");
    reveal_strlit("input not found: ");
    assert("input"@ + " not found: "@ =~= "input not found: "@);
}

} // verus!
