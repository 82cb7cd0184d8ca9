//! Heavy audio cleanup: mains hum is notched out, broadband noise is reduced
//! against a sampled noise profile, and the loudness is normalized in two
//! passes. The video is always copied bit for bit; the audio stays PCM.
use crate::binary64;
use crate::binary64::Binary64;
use crate::command::{CommandLine, Line, FFMPEG, SOX};
use crate::config::Config;
use crate::encoding;
use crate::ieee;
use crate::job;
use crate::job::{Action, ActionView, SequenceJob, Step};
use crate::path;
use crate::path::FilePath;
use crate::text;
use crate::vs_ops;
use crate::vs_ops::VsOp;
use vstd::arithmetic::div_mod::lemma_mod_bound;
use vstd::arithmetic::power2::lemma_pow2_pos;
use vstd::prelude::*;
use vstd::std_specs::cmp::{PartialEqSpec, PartialEqSpecImpl};

verus! {

/// The mains frequency whose first three harmonics are notched out.
pub const HUM_HZ: u32 = 60;

/// The true-peak ceiling: it leaves headroom for lossy encodes of the result.
pub const LOUDNORM_TP: &'static str = "-1.5";

/// The loudness-range target.
pub const LOUDNORM_LRA: &'static str = "11";

/// The knobs of a cleanup.
#[derive(Clone, Copy, Debug)]
pub struct Params {
    /// Whether mains hum is notched out.
    pub hum_enable: bool,
    /// Where the noise sample starts, in seconds. It should be a quiet spot:
    /// whatever sounds there is taken for noise in the whole file.
    pub noise_start_secs: Binary64,
    /// How long the noise sample is, in seconds.
    pub noise_len_secs: Binary64,
    /// How strongly noise is reduced. Too much of it sounds harsh on program
    /// material when the sample is not quite quiet.
    pub nr_amount: Binary64,
    /// The integrated loudness to reach, in LUFS.
    pub loudnorm_target_i: Binary64,
}

/// Knobs are compared by value, each number as doubles are.
impl PartialEq for Params {
    fn eq(&self, other: &Params) -> (r: bool) {
        self.hum_enable == other.hum_enable && self.noise_start_secs == other.noise_start_secs
            && self.noise_len_secs == other.noise_len_secs && self.nr_amount == other.nr_amount
            && self.loudnorm_target_i == other.loudnorm_target_i
    }
}

impl PartialEqSpecImpl for Params {
    open spec fn obeys_eq_spec() -> bool {
        true
    }

    open spec fn eq_spec(&self, other: &Params) -> bool {
        &&& self.hum_enable == other.hum_enable
        &&& self.noise_start_secs.spec_equal(other.noise_start_secs)
        &&& self.noise_len_secs.spec_equal(other.noise_len_secs)
        &&& self.nr_amount.spec_equal(other.nr_amount)
        &&& self.loudnorm_target_i.spec_equal(other.loudnorm_target_i)
    }
}

impl Default for Params {
    /// Hum is notched, the first second is sampled, noise is reduced by 0.15
    /// and the loudness target is -16 LUFS.
    fn default() -> (r: Params)
        ensures
            r.hum_enable,
            r.noise_start_secs.bits == 0,
            r.noise_len_secs.bits == 0x3FF0_0000_0000_0000,
            r.nr_amount.bits == 0x3FC3_3333_3333_3333,
            r.loudnorm_target_i.bits == 0xC030_0000_0000_0000,
    {
        Params {
            hum_enable: true,
            noise_start_secs: Binary64::from_bits(0),
            noise_len_secs: Binary64::from_bits(0x3FF0_0000_0000_0000),
            nr_amount: Binary64::from_bits(0x3FC3_3333_3333_3333),
            loudnorm_target_i: Binary64::from_bits(0xC030_0000_0000_0000),
        }
    }
}

/// The value that a text like `"key" : "value"` gives for `key`: what stands
/// in the first quotes after the first colon after the quoted key.
pub open spec fn spec_json_field(text: Seq<char>, key: Seq<char>) -> Option<Seq<char>> {
    match text::spec_find(text, seq!['"'] + key + seq!['"']) {
        Some(i) => match text::spec_split_once(text.skip(i + key.len() + 2), ':') {
            Some((_, after)) => match text::spec_split_once(after, '"') {
                Some((_, quoted)) => match text::spec_split_once(quoted, '"') {
                    Some((value, _)) => Some(value),
                    None => None,
                },
                None => None,
            },
            None => None,
        },
        None => None,
    }
}

/// The value that a text like `"key" : "value"` gives for `key`.
pub fn extract_json_field(text: &str, key: &str) -> (r: Option<String>)
    ensures
        match r {
            Some(v) => spec_json_field(text@, key@) == Some(v@),
            None => spec_json_field(text@, key@) is None,
        },
{
    let mut needle: Vec<char> = Vec::new();
    needle.push('"');
    let mut key_chars = text::chars_of(key);
    needle.append(&mut key_chars);
    needle.push('"');
    assert(needle@ =~= seq!['"'] + key@ + seq!['"']);
    let chars = text::chars_of(text);
    let i: usize = match text::find(&chars, &needle, 0) {
        Some(i) => i,
        None => {
            return None;
        },
    };
    let end: usize = chars.len();
    let from: usize = i + needle.len();
    assert(text@.subrange(from as int, end as int) =~= text@.skip(i + key@.len() + 2));
    let rest = text.substring_char(from, end);
    match text::split_once(rest, ':') {
        Some((_, after)) => match text::split_once(after, '"') {
            Some((_, quoted)) => match text::split_once(quoted, '"') {
                Some((value, _)) => Some(value.to_string()),
                None => None,
            },
            None => None,
        },
        None => None,
    }
}

/// The seconds of a time stamp, with two decimals and zeros up to five
/// characters.
pub open spec fn spec_seconds(s: Binary64) -> Seq<char> {
    let n = binary64::spec_rounded(s.magnitude(), 100);
    if s.is_nan() {
        "00NaN"@
    } else {
        text::padded_digits(n / 100, 2) + "."@ + text::padded_digits(n % 100, 2)
    }
}

/// The time stamp `HH:MM:SS.ss` of `secs`. What is not positive counts as 0.
#[verifier::opaque]
pub open spec fn spec_hhmmss(secs: Binary64) -> Seq<char> {
    let t = if secs.spec_positive() {
        secs
    } else {
        Binary64 { bits: 0 }
    };
    let h = binary64::spec_truncated(t.spec_quotient(Binary64 { bits: ieee::HOUR }));
    let m = binary64::spec_truncated(
        t.spec_remainder(3600).spec_quotient(Binary64 { bits: ieee::MINUTE }),
    );
    text::padded_digits(h, 2) + ":"@ + text::padded_digits(m, 2) + ":"@ + spec_seconds(
        t.spec_remainder(60),
    )
}

/// The time stamp `HH:MM:SS.ss` of `secs`. What is not positive counts as 0.
pub fn hhmmss(secs: Binary64) -> (r: String)
    ensures
        r@ == spec_hhmmss(secs),
{
    let t = if secs.is_positive() {
        secs
    } else {
        Binary64::from_bits(0)
    };
    let h: u64 = t.divided_by(Binary64::from_bits(ieee::HOUR)).truncated();
    let m: u64 = t.remainder(3600).divided_by(Binary64::from_bits(ieee::MINUTE)).truncated();
    let s = t.remainder(60);
    let mut out = text::padded(h as u128, 2);
    out.append(":");
    out.append(text::padded(m as u128, 2).as_str());
    out.append(":");
    if s.not_a_number() {
        out.append("00NaN");
        proof {
            reveal(spec_hhmmss);
        }
        return out;
    }
    let abs: u64 = s.bits % 0x8000_0000_0000_0000;
    let e: u64 = abs / 0x10_0000_0000_0000;
    let f: u64 = abs % 0x10_0000_0000_0000;
    proof {
        let whole = (60 * binary64::one()) as nat;
        lemma_pow2_pos(1074);
        lemma_mod_bound(t.magnitude() as int, whole as int);
        binary64::lemma_below_sixty(s);
    }
    let n: u128 = binary64::rounded(e, f, 100);
    let ghost before = out@;
    out.append(text::padded(n / 100, 2).as_str());
    out.append(".");
    out.append(text::padded(n % 100, 2).as_str());
    proof {
        reveal(spec_hhmmss);
        assert(out@ =~= before + spec_seconds(s));
    }
    out
}

/// The filters that every extracted track goes through.
pub fn af_chain() -> (r: String)
    ensures
        r@ == "highpass=f=20,aresample=async=0:first_pts=0,asetpts=N/SR/TB"@,
{
    "highpass=f=20,aresample=async=0:first_pts=0,asetpts=N/SR/TB".to_string()
}

/// How many threads the encoder may use: as many as the machine runs at once,
/// or one where that is unknown.
pub fn threads(parallelism: Option<usize>) -> (r: String)
    ensures
        r@ == text::digits(
            match parallelism {
                Some(n) => n as nat,
                None => 1,
            },
        ),
{
    match parallelism {
        Some(n) => text::decimal(n as u128),
        None => text::decimal(1),
    }
}

/// The name of a cleaned file, made from the stem of its input.
pub open spec fn cleaned_name(stem: Seq<u8>) -> Seq<u8> {
    match path::spec_strip_suffix(stem, path::bytes_of("_VD"@)) {
        Some(base) => base + path::bytes_of("_ACLEAN_VD.mkv"@),
        None => stem + path::bytes_of("_ACLEAN.mkv"@),
    }
}

/// The file name of the cleaned-audio output for `input`.
pub open spec fn spec_output_name(input: Seq<u8>) -> Seq<u8> {
    cleaned_name(path::spec_stem_of(input))
}

/// The cleaned-audio output for `input`.
pub open spec fn spec_output_path(input: Seq<u8>) -> Seq<u8> {
    path::spec_join(path::spec_dir_of(input), spec_output_name(input))
}

/// The cleaned-audio output for `input`, beside it. Masters are told apart by
/// their file names, decimated ones by `_VD.mkv` at the end, so that `_VD`
/// stays behind what is added.
pub fn output_path(input: &FilePath) -> (r: FilePath)
    ensures
        r@ == spec_output_path(input@),
{
    let stem = input.stem_of();
    let name = match path::strip_suffix(stem.as_slice(), "_VD".as_bytes()) {
        Some(base) => {
            let mut name = base;
            path::push_bytes(&mut name, "_ACLEAN_VD.mkv".as_bytes());
            name
        },
        None => {
            let mut name = stem;
            path::push_bytes(&mut name, "_ACLEAN.mkv".as_bytes());
            name
        },
    };
    input.dir_of().join_bytes(name.as_slice())
}

/// The name of the scratch directory of a cleanup.
pub open spec fn spec_work_dir_name(pid: nat, nanos: nat) -> Seq<char> {
    "vhs-gui-audiocleanup-"@ + text::digits(pid) + "-"@ + text::digits(nanos)
}

/// The scratch directory of a cleanup that the process `pid` starts at
/// `nanos` nanoseconds since the epoch.
pub fn unique_work_dir(temp_dir: &FilePath, pid: u32, nanos: u128) -> (r: FilePath)
    ensures
        r@ == path::spec_join(
            temp_dir@,
            path::bytes_of(spec_work_dir_name(pid as nat, nanos as nat)),
        ),
{
    let mut name = "vhs-gui-audiocleanup-".to_string();
    name.append(text::decimal(pid as u128).as_str());
    name.append("-");
    name.append(text::decimal(nanos).as_str());
    temp_dir.join(name.as_str())
}

/// Numeric arguments of a cleanup in decimal, as short as each allows.
#[derive(Debug, PartialEq, Eq)]
pub struct Texts {
    /// How strongly noise is reduced.
    pub nr_amount: String,
    /// The integrated loudness to reach.
    pub target_i: String,
    /// How many threads the encoder may use.
    pub threads: String,
}

/// A file in the scratch directory.
pub open spec fn scratch(work_dir: Seq<u8>, name: Seq<char>) -> Seq<u8> {
    path::spec_join(work_dir, path::bytes_of(name))
}

/// The command with the output settings of every extracted track.
pub open spec fn spec_pcm_track(line: Line, threads: Seq<char>, out: Seq<u8>) -> Line {
    line.texts(seq!["-vn", "-map", "0:a:0", "-af"]).text(
        "highpass=f=20,aresample=async=0:first_pts=0,asetpts=N/SR/TB"@,
    ).texts(seq!["-ac", "2", "-ar", "48000", "-c:a", "pcm_s16le", "-threads"]).text(threads).arg(out)
}

/// Extracts the whole audio track of `input`.
pub open spec fn spec_extract_full(input: Seq<u8>, work_dir: Seq<u8>, texts: Texts) -> Line {
    spec_pcm_track(
        Line::of(path::bytes_of(FFMPEG@)).texts(
            seq!["-hide_banner", "-nostdin", "-y", "-fflags", "+genpts", "-i"],
        ).arg(input),
        texts.threads@,
        scratch(work_dir, "full.wav"@),
    )
}

/// Extracts the noise sample of `input`.
pub open spec fn spec_extract_sample(
    input: Seq<u8>,
    work_dir: Seq<u8>,
    params: Params,
    texts: Texts,
) -> Line {
    spec_pcm_track(
        Line::of(path::bytes_of(FFMPEG@)).texts(
            seq!["-hide_banner", "-nostdin", "-y", "-fflags", "+genpts"],
        ).text("-ss"@).text(spec_hhmmss(params.noise_start_secs)).text("-t"@).text(
            spec_hhmmss(params.noise_len_secs),
        ).text("-i"@).arg(input),
        texts.threads@,
        scratch(work_dir, "sample.wav"@),
    )
}

/// Notches out the mains frequency and its second and third harmonic.
pub open spec fn spec_hum_notch(work_dir: Seq<u8>) -> Line {
    Line::of(path::bytes_of(SOX@)).arg(scratch(work_dir, "full.wav"@)).arg(
        scratch(work_dir, "hum.wav"@),
    ).text("bandreject"@).text(text::digits(HUM_HZ as nat)).text("2q"@).text("bandreject"@).text(
        text::digits((HUM_HZ * 2) as nat),
    ).text("2q"@).text("bandreject"@).text(text::digits((HUM_HZ * 3) as nat)).text("2q"@)
}

/// Builds the noise profile from the sample.
pub open spec fn spec_noiseprof(work_dir: Seq<u8>) -> Line {
    Line::of(path::bytes_of(SOX@)).arg(scratch(work_dir, "sample.wav"@)).texts(
        seq!["-n", "noiseprof"],
    ).arg(scratch(work_dir, "noise.prof"@))
}

/// Reduces the profiled noise in `track`.
pub open spec fn spec_noisered(track: Seq<u8>, work_dir: Seq<u8>, texts: Texts) -> Line {
    Line::of(path::bytes_of(SOX@)).arg(track).arg(scratch(work_dir, "clean.wav"@)).text(
        "noisered"@,
    ).arg(scratch(work_dir, "noise.prof"@)).text(texts.nr_amount@)
}

/// Puts the normalized track beside the copied video of `input`.
pub open spec fn spec_remux(input: Seq<u8>, output: Seq<u8>, work_dir: Seq<u8>) -> Line {
    Line::of(path::bytes_of(FFMPEG@)).texts(
        seq!["-hide_banner", "-nostdin", "-y", "-fflags", "+genpts", "-i"],
    ).arg(input).texts(seq!["-fflags", "+genpts", "-i"]).arg(scratch(work_dir, "norm.wav"@)).texts(
        seq!["-map", "0:v:0", "-map", "1:a:0", "-c:v", "copy", "-c:a", "pcm_s16le"],
    ).texts(seq!["-avoid_negative_ts", "make_zero", "-shortest"]).arg(output)
}

/// The steps of a cleanup. Without hum notching that step is left out, and
/// noise is reduced in the extracted track itself.
pub open spec fn spec_steps(
    input: Seq<u8>,
    output: Seq<u8>,
    work_dir: Seq<u8>,
    params: Params,
    texts: Texts,
) -> Seq<(Seq<char>, ActionView)> {
    let extract = seq![
        ("Extracting audio..."@, Action::Run(spec_extract_full(input, work_dir, texts))),
    ];
    let notch = if params.hum_enable {
        seq![("Notching hum..."@, Action::Run(spec_hum_notch(work_dir)))]
    } else {
        Seq::empty()
    };
    let track = if params.hum_enable {
        scratch(work_dir, "hum.wav"@)
    } else {
        scratch(work_dir, "full.wav"@)
    };
    extract + notch + seq![
        (
            "Sampling noise profile..."@,
            Action::Run(spec_extract_sample(input, work_dir, params, texts)),
        ),
        ("Building noise profile..."@, Action::Run(spec_noiseprof(work_dir))),
        ("Reducing broadband noise..."@, Action::Run(spec_noisered(track, work_dir, texts))),
        (
            "Loudness normalizing..."@,
            Action::Normalize {
                input: scratch(work_dir, "clean.wav"@),
                output: scratch(work_dir, "norm.wav"@),
                target_i: texts.target_i@,
                threads: texts.threads@,
            },
        ),
        ("Remuxing..."@, Action::Run(spec_remux(input, output, work_dir))),
    ]
}

/// Adds the output settings of every extracted track.
fn pcm_track(cmd: &mut CommandLine, threads: &str, out: &FilePath)
    ensures
        final(cmd)@ == spec_pcm_track(old(cmd)@, threads@, out@),
{
    cmd.texts(&["-vn", "-map", "0:a:0", "-af"]);
    let af = af_chain();
    cmd.text(af.as_str());
    cmd.texts(&["-ac", "2", "-ar", "48000", "-c:a", "pcm_s16le", "-threads"]);
    cmd.text(threads);
    cmd.arg(out.as_bytes());
}

/// Extracts the whole audio track of `input`.
fn extract_full(input: &FilePath, work_dir: &FilePath, texts: &Texts) -> (r: CommandLine)
    ensures
        r@ == spec_extract_full(input@, work_dir@, *texts),
{
    let mut cmd = CommandLine::new(FilePath::new(FFMPEG));
    cmd.texts(&["-hide_banner", "-nostdin", "-y", "-fflags", "+genpts", "-i"]);
    cmd.arg(input.as_bytes());
    pcm_track(&mut cmd, texts.threads.as_str(), &work_dir.join("full.wav"));
    cmd
}

/// Extracts the noise sample of `input`.
fn extract_sample(
    input: &FilePath,
    work_dir: &FilePath,
    params: &Params,
    texts: &Texts,
) -> (r: CommandLine)
    ensures
        r@ == spec_extract_sample(input@, work_dir@, *params, *texts),
{
    let mut cmd = CommandLine::new(FilePath::new(FFMPEG));
    cmd.texts(&["-hide_banner", "-nostdin", "-y", "-fflags", "+genpts"]);
    cmd.text("-ss");
    cmd.text(hhmmss(params.noise_start_secs).as_str());
    cmd.text("-t");
    cmd.text(hhmmss(params.noise_len_secs).as_str());
    cmd.text("-i");
    cmd.arg(input.as_bytes());
    pcm_track(&mut cmd, texts.threads.as_str(), &work_dir.join("sample.wav"));
    cmd
}

/// Notches out the mains frequency and its second and third harmonic.
fn hum_notch(work_dir: &FilePath) -> (r: CommandLine)
    ensures
        r@ == spec_hum_notch(work_dir@),
{
    let mut cmd = CommandLine::new(FilePath::new(SOX));
    cmd.arg(work_dir.join("full.wav").as_bytes());
    cmd.arg(work_dir.join("hum.wav").as_bytes());
    cmd.text("bandreject");
    cmd.text(text::decimal(HUM_HZ as u128).as_str());
    cmd.text("2q");
    cmd.text("bandreject");
    cmd.text(text::decimal((HUM_HZ * 2) as u128).as_str());
    cmd.text("2q");
    cmd.text("bandreject");
    cmd.text(text::decimal((HUM_HZ * 3) as u128).as_str());
    cmd.text("2q");
    cmd
}

/// Builds the noise profile from the sample.
fn noiseprof(work_dir: &FilePath) -> (r: CommandLine)
    ensures
        r@ == spec_noiseprof(work_dir@),
{
    let mut cmd = CommandLine::new(FilePath::new(SOX));
    cmd.arg(work_dir.join("sample.wav").as_bytes());
    cmd.texts(&["-n", "noiseprof"]);
    cmd.arg(work_dir.join("noise.prof").as_bytes());
    cmd
}

/// Reduces the profiled noise in `track`.
fn noisered(track: &FilePath, work_dir: &FilePath, texts: &Texts) -> (r: CommandLine)
    ensures
        r@ == spec_noisered(track@, work_dir@, *texts),
{
    let mut cmd = CommandLine::new(FilePath::new(SOX));
    cmd.arg(track.as_bytes());
    cmd.arg(work_dir.join("clean.wav").as_bytes());
    cmd.text("noisered");
    cmd.arg(work_dir.join("noise.prof").as_bytes());
    cmd.text(texts.nr_amount.as_str());
    cmd
}

/// Puts the normalized track beside the copied video of `input`.
fn remux(input: &FilePath, output: &FilePath, work_dir: &FilePath) -> (r: CommandLine)
    ensures
        r@ == spec_remux(input@, output@, work_dir@),
{
    let mut cmd = CommandLine::new(FilePath::new(FFMPEG));
    cmd.texts(&["-hide_banner", "-nostdin", "-y", "-fflags", "+genpts", "-i"]);
    cmd.arg(input.as_bytes());
    cmd.texts(&["-fflags", "+genpts", "-i"]);
    cmd.arg(work_dir.join("norm.wav").as_bytes());
    cmd.texts(&["-map", "0:v:0", "-map", "1:a:0", "-c:v", "copy", "-c:a", "pcm_s16le"]);
    cmd.texts(&["-avoid_negative_ts", "make_zero", "-shortest"]);
    cmd.arg(output.as_bytes());
    cmd
}

/// The steps of a cleanup of `input` into `output`, with `work_dir` for the
/// files in between.
pub fn steps(
    input: &FilePath,
    output: &FilePath,
    work_dir: &FilePath,
    params: &Params,
    texts: &Texts,
) -> (r: Vec<Step>)
    ensures
        job::step_views(r@) == spec_steps(input@, output@, work_dir@, *params, *texts),
{
    let mut out: Vec<Step> = Vec::new();
    out.push(
        Step {
            title: "Extracting audio...",
            action: Action::Run(extract_full(input, work_dir, texts)),
        },
    );
    let track = if params.hum_enable {
        out.push(Step { title: "Notching hum...", action: Action::Run(hum_notch(work_dir)) });
        work_dir.join("hum.wav")
    } else {
        work_dir.join("full.wav")
    };
    out.push(
        Step {
            title: "Sampling noise profile...",
            action: Action::Run(extract_sample(input, work_dir, params, texts)),
        },
    );
    out.push(
        Step { title: "Building noise profile...", action: Action::Run(noiseprof(work_dir)) },
    );
    out.push(
        Step {
            title: "Reducing broadband noise...",
            action: Action::Run(noisered(&track, work_dir, texts)),
        },
    );
    out.push(
        Step {
            title: "Loudness normalizing...",
            action: Action::Normalize {
                input: work_dir.join("clean.wav"),
                output: work_dir.join("norm.wav"),
                target_i: texts.target_i.clone(),
                threads: texts.threads.clone(),
            },
        },
    );
    out.push(
        Step { title: "Remuxing...", action: Action::Run(remux(input, output, work_dir)) },
    );
    assert(job::step_views(out@) =~= spec_steps(input@, output@, work_dir@, *params, *texts));
    out
}

/// The measuring pass of the loudness normalization.
pub open spec fn spec_measure(input: Seq<u8>, target_i: Seq<char>) -> Line {
    Line::of(path::bytes_of(FFMPEG@)).texts(seq!["-hide_banner", "-nostdin", "-i"]).arg(input).text(
        "-af"@,
    ).text(
        "loudnorm=I="@ + target_i + ":TP="@ + LOUDNORM_TP@ + ":LRA="@ + LOUDNORM_LRA@
            + ":print_format=json"@,
    ).texts(seq!["-f", "null", "-"])
}

/// The measuring pass: prints the loudness of `input`, for the integrated
/// loudness target `target_i`.
pub fn measure(input: &FilePath, target_i: &str) -> (r: CommandLine)
    ensures
        r@ == spec_measure(input@, target_i@),
{
    let mut cmd = CommandLine::new(FilePath::new(FFMPEG));
    cmd.texts(&["-hide_banner", "-nostdin", "-i"]);
    cmd.arg(input.as_bytes());
    cmd.text("-af");
    let mut filter = "loudnorm=I=".to_string();
    filter.append(target_i);
    filter.append(":TP=");
    filter.append(LOUDNORM_TP);
    filter.append(":LRA=");
    filter.append(LOUDNORM_LRA);
    filter.append(":print_format=json");
    cmd.text(filter.as_str());
    cmd.texts(&["-f", "null", "-"]);
    cmd
}

/// What the measuring pass printed.
#[verifier::ext_equal]
pub struct Measured {
    pub i: Seq<char>,
    pub tp: Seq<char>,
    pub lra: Seq<char>,
    pub thresh: Seq<char>,
    pub offset: Seq<char>,
}

/// The measured values in the text that the measuring pass printed, if all
/// five are there.
pub open spec fn spec_measured(text: Seq<char>) -> Option<Measured> {
    match (
        spec_json_field(text, "input_i"@),
        spec_json_field(text, "input_tp"@),
        spec_json_field(text, "input_lra"@),
        spec_json_field(text, "input_thresh"@),
        spec_json_field(text, "target_offset"@),
    ) {
        (Some(i), Some(tp), Some(lra), Some(thresh), Some(offset)) => Some(
            Measured { i, tp, lra, thresh, offset },
        ),
        _ => None,
    }
}

/// The filter of the correcting pass.
pub open spec fn spec_correcting_filter(target_i: Seq<char>, m: Measured) -> Seq<char> {
    "loudnorm=I="@ + target_i + ":TP="@ + LOUDNORM_TP@ + ":LRA="@ + LOUDNORM_LRA@ + ":measured_I="@
        + m.i + ":measured_TP="@ + m.tp + ":measured_LRA="@ + m.lra + ":measured_thresh="@
        + m.thresh + ":offset="@ + m.offset + ":linear=true:print_format=summary"@
}

/// The correcting pass of the loudness normalization.
pub open spec fn spec_apply(
    input: Seq<u8>,
    output: Seq<u8>,
    target_i: Seq<char>,
    threads: Seq<char>,
    m: Measured,
) -> Line {
    Line::of(path::bytes_of(FFMPEG@)).texts(seq!["-hide_banner", "-nostdin", "-y", "-i"]).arg(
        input,
    ).text("-af"@).text(spec_correcting_filter(target_i, m)).texts(
        seq!["-ar", "48000", "-c:a", "pcm_s16le", "-threads"],
    ).text(threads).arg(output)
}

/// The correcting pass, given how the measuring pass went: whether it
/// succeeded, whether the job was cancelled meanwhile, and what it printed.
/// `None` ends the step as failed.
pub fn loudnorm_step(
    input: &FilePath,
    output: &FilePath,
    target_i: &str,
    threads: &str,
    measured_ok: bool,
    cancelled: bool,
    text: &str,
) -> (r: Option<CommandLine>)
    ensures
        r is Some <==> measured_ok && !cancelled && spec_measured(text@) is Some,
        r matches Some(cmd) ==> cmd@ == spec_apply(
            input@,
            output@,
            target_i@,
            threads@,
            spec_measured(text@)->0,
        ),
{
    if !measured_ok || cancelled {
        return None;
    }
    match (
        extract_json_field(text, "input_i"),
        extract_json_field(text, "input_tp"),
        extract_json_field(text, "input_lra"),
        extract_json_field(text, "input_thresh"),
        extract_json_field(text, "target_offset"),
    ) {
        (Some(m_i), Some(m_tp), Some(m_lra), Some(m_thresh), Some(offset)) => {
            let mut filter = "loudnorm=I=".to_string();
            filter.append(target_i);
            filter.append(":TP=");
            filter.append(LOUDNORM_TP);
            filter.append(":LRA=");
            filter.append(LOUDNORM_LRA);
            filter.append(":measured_I=");
            filter.append(m_i.as_str());
            filter.append(":measured_TP=");
            filter.append(m_tp.as_str());
            filter.append(":measured_LRA=");
            filter.append(m_lra.as_str());
            filter.append(":measured_thresh=");
            filter.append(m_thresh.as_str());
            filter.append(":offset=");
            filter.append(offset.as_str());
            filter.append(":linear=true:print_format=summary");
            let mut cmd = CommandLine::new(FilePath::new(FFMPEG));
            cmd.texts(&["-hide_banner", "-nostdin", "-y", "-i"]);
            cmd.arg(input.as_bytes());
            cmd.text("-af");
            cmd.text(filter.as_str());
            cmd.texts(&["-ar", "48000", "-c:a", "pcm_s16le", "-threads"]);
            cmd.text(threads);
            cmd.arg(output.as_bytes());
            Some(cmd)
        },
        _ => None,
    }
}

/// Why a cleanup cannot be started.
#[derive(Clone, Copy, Debug, PartialEq, Eq, Structural)]
pub enum CleanupError {
    FfmpegNotFound,
    SoxNotFound,
    InputNotFound,
}

impl CleanupError {
    /// What the user is told, with the input shown as `shown`.
    pub open spec fn spec_message(self, shown: Seq<char>) -> Seq<char> {
        match self {
            CleanupError::FfmpegNotFound => "ffmpeg"@ + " not found: "@ + FFMPEG@,
            CleanupError::SoxNotFound => "sox"@ + " not found: "@ + SOX@
                + ". Install with: sudo apt-get install sox"@,
            CleanupError::InputNotFound => "input"@ + " not found: "@ + shown,
        }
    }

    /// What the user is told, with the input shown as `shown`.
    pub fn message_showing(self, shown: &str) -> (r: String)
        ensures
            r@ == self.spec_message(shown@),
    {
        match self {
            CleanupError::FfmpegNotFound => encoding::not_found("ffmpeg", FFMPEG),
            CleanupError::SoxNotFound => {
                let mut out = encoding::not_found("sox", SOX);
                out.append(". Install with: sudo apt-get install sox");
                out
            },
            CleanupError::InputNotFound => encoding::not_found("input", shown),
        }
    }

    /// What the user is told about `input`.
    pub fn message(self, input: &FilePath) -> (r: String)
        ensures
            r@ == self.spec_message(encoding::utf8_lossy(input@)),
            vstd::utf8::valid_utf8(input@) ==> r@ == self.spec_message(
                vstd::utf8::decode_utf8(input@),
            ),
    {
        self.message_showing(encoding::lossy(input.as_bytes()).as_str())
    }
}

/// What has to be done or found out next before a cleanup can be started.
#[derive(Clone, Copy, Debug, PartialEq, Eq, Structural)]
pub enum Stage {
    /// Whether `ffmpeg` is a file.
    Ffmpeg,
    /// Whether `sox` is a file.
    Sox,
    /// Whether the input is a file.
    Input,
    /// The directory of the output has to exist.
    OutputDir,
    /// The scratch directory has to exist.
    WorkDir,
}

/// What the caller has to do for a stage.
#[derive(Debug, PartialEq, Eq)]
pub enum Task {
    /// Find out whether this is a file.
    IsFile(FilePath),
    /// Make this directory and those above it, if one is given.
    MakeDir(Option<FilePath>),
}

/// What the caller has to do for `stage`.
pub fn task(stage: Stage, input: &FilePath, output: &FilePath, work_dir: &FilePath) -> (r: Task)
    ensures
        match stage {
            Stage::Ffmpeg => r matches Task::IsFile(p) && p@ == path::bytes_of(FFMPEG@),
            Stage::Sox => r matches Task::IsFile(p) && p@ == path::bytes_of(SOX@),
            Stage::Input => r matches Task::IsFile(p) && p@ == input@,
            Stage::OutputDir => r matches Task::MakeDir(d) && match d {
                Some(dir) => path::spec_parent(output@) == Some(dir@),
                None => path::spec_parent(output@) is None,
            },
            Stage::WorkDir => r matches Task::MakeDir(Some(dir)) && dir@ == work_dir@,
        },
{
    match stage {
        Stage::Ffmpeg => Task::IsFile(FilePath::new(FFMPEG)),
        Stage::Sox => Task::IsFile(FilePath::new(SOX)),
        Stage::Input => Task::IsFile(input.copy()),
        Stage::OutputDir => Task::MakeDir(output.parent()),
        Stage::WorkDir => Task::MakeDir(Some(work_dir.copy())),
    }
}

/// How the launch goes on. `J` is the job to start; specifications leave it out.
#[derive(Debug, PartialEq, Eq)]
pub enum Outcome<J> {
    Next(Stage),
    Failed(CleanupError),
    Start(J),
}

/// How the launch goes on once the task of `stage` is done. `holds` is the
/// answer where that was a question.
pub open spec fn spec_launch(stage: Stage, holds: bool) -> Outcome<()> {
    match stage {
        Stage::Ffmpeg => if holds {
            Outcome::Next(Stage::Sox)
        } else {
            Outcome::Failed(CleanupError::FfmpegNotFound)
        },
        Stage::Sox => if holds {
            Outcome::Next(Stage::Input)
        } else {
            Outcome::Failed(CleanupError::SoxNotFound)
        },
        Stage::Input => if holds {
            Outcome::Next(Stage::OutputDir)
        } else {
            Outcome::Failed(CleanupError::InputNotFound)
        },
        Stage::OutputDir => Outcome::Next(Stage::WorkDir),
        Stage::WorkDir => Outcome::Start(()),
    }
}

/// Takes that the task of `stage` is done (`holds` is the answer where it was
/// a question), and says what to do next, why the cleanup cannot be started,
/// or which job to start.
pub fn launch(
    stage: Stage,
    holds: bool,
    input: &FilePath,
    output: &FilePath,
    work_dir: &FilePath,
    cfg: &Config,
    label: &str,
    params: &Params,
    texts: &Texts,
) -> (r: Outcome<SequenceJob>)
    ensures
        match spec_launch(stage, holds) {
            Outcome::Next(next) => r == Outcome::<SequenceJob>::Next(next),
            Outcome::Failed(error) => r == Outcome::<SequenceJob>::Failed(error),
            Outcome::Start(_) => {
                &&& r matches Outcome::Start(job)
                &&& job.label@ == label@
                &&& job.input@ == input@
                &&& job::step_views(job.steps@) == spec_steps(
                    input@,
                    output@,
                    work_dir@,
                    *params,
                    *texts,
                )
                &&& job.work_dir@ == work_dir@
                &&& job.log_dir@ == path::spec_join(cfg.videos_dir@, path::bytes_of("logs"@))
            },
        },
{
    match stage {
        Stage::Ffmpeg => if holds {
            Outcome::Next(Stage::Sox)
        } else {
            Outcome::Failed(CleanupError::FfmpegNotFound)
        },
        Stage::Sox => if holds {
            Outcome::Next(Stage::Input)
        } else {
            Outcome::Failed(CleanupError::SoxNotFound)
        },
        Stage::Input => if holds {
            Outcome::Next(Stage::OutputDir)
        } else {
            Outcome::Failed(CleanupError::InputNotFound)
        },
        Stage::OutputDir => Outcome::Next(Stage::WorkDir),
        Stage::WorkDir => Outcome::Start(
            SequenceJob {
                label: label.to_string(),
                input: input.copy(),
                steps: steps(input, output, work_dir, params, texts),
                work_dir: work_dir.copy(),
                log_dir: cfg.log_dir(),
            },
        ),
    }
}

/// The launch from `stage` on, for at most `fuel` tasks, where the tools and
/// the input are present or not.
pub open spec fn run_launch(
    stage: Stage,
    ffmpeg: bool,
    sox: bool,
    input: bool,
    fuel: nat,
) -> Outcome<()>
    decreases fuel,
{
    let holds = match stage {
        Stage::Ffmpeg => ffmpeg,
        Stage::Sox => sox,
        Stage::Input => input,
        _ => true,
    };
    if fuel == 0 {
        Outcome::Next(stage)
    } else {
        match spec_launch(stage, holds) {
            Outcome::Next(next) => run_launch(next, ffmpeg, sox, input, (fuel - 1) as nat),
            done => done,
        }
    }
}

/// A launch ends after five tasks at most. It reports the first of these that
/// is missing: `ffmpeg`, `sox`, the input; if none is, it starts the job. No
/// directory is made for a cleanup that cannot be started.
pub proof fn law_launch_decides(ffmpeg: bool, sox: bool, input: bool)
    ensures
        run_launch(Stage::Ffmpeg, ffmpeg, sox, input, 5) == (if !ffmpeg {
            Outcome::Failed(CleanupError::FfmpegNotFound)
        } else if !sox {
            Outcome::Failed(CleanupError::SoxNotFound)
        } else if !input {
            Outcome::Failed(CleanupError::InputNotFound)
        } else {
            Outcome::Start(())
        }),
        !(ffmpeg && sox && input) ==> run_launch(Stage::Ffmpeg, ffmpeg, sox, input, 3) is Failed,
{
    reveal_with_fuel(run_launch, 6);
}

/// A summary that states `"key" : "value"` is read back as `value`, provided
/// that the quoted key does not stand anywhere before and the value holds no
/// quotes.
pub proof fn law_json_field_reads_back(
    pre: Seq<char>,
    key: Seq<char>,
    value: Seq<char>,
    post: Seq<char>,
)
    requires
        ({
            let text = pre + (seq!['"'] + key + seq!['"']) + seq![' ', ':', ' ', '"'] + value
                + seq!['"'] + post;
            forall|j: int|
                0 <= j < pre.len() ==> !text::matches_at(text, seq!['"'] + key + seq!['"'], j)
        }),
        forall|j: int| 0 <= j < value.len() ==> value[j] != '"',
    ensures
        spec_json_field(
            pre + (seq!['"'] + key + seq!['"']) + seq![' ', ':', ' ', '"'] + value + seq!['"']
                + post,
            key,
        ) == Some(value),
{
    let needle = seq!['"'] + key + seq!['"'];
    let text = pre + needle + seq![' ', ':', ' ', '"'] + value + seq!['"'] + post;
    let i = pre.len() as int;
    assert(text.subrange(i, i + needle.len()) =~= needle);
    text::lemma_find_from_unique(text, needle, 0, i);
    let rest = text.skip(i + key.len() + 2);
    assert(rest =~= seq![' ', ':', ' ', '"'] + value + seq!['"'] + post);
    text::lemma_split_once_at(rest, ':', 1);
    let after = rest.skip(2);
    assert(after =~= seq![' ', '"'] + value + seq!['"'] + post);
    text::lemma_split_once_at(after, '"', 1);
    let quoted = after.skip(2);
    assert(quoted =~= value + seq!['"'] + post);
    text::lemma_split_once_at(quoted, '"', value.len() as int);
    assert(quoted.take(value.len() as int) =~= value);
}

/// What else is printed around a summary does not matter: a field that can be
/// read is read the same with text before and behind, provided that the quoted
/// key does not start in the text before.
pub proof fn law_noise_does_not_matter(
    pre: Seq<char>,
    text: Seq<char>,
    post: Seq<char>,
    key: Seq<char>,
)
    requires
        spec_json_field(text, key) is Some,
        forall|j: int|
            0 <= j < pre.len() ==> !text::matches_at(
                pre + text + post,
                seq!['"'] + key + seq!['"'],
                j,
            ),
    ensures
        spec_json_field(pre + text + post, key) == spec_json_field(text, key),
{
    let needle = seq!['"'] + key + seq!['"'];
    let all = pre + text + post;
    text::lemma_find_from_sound(text, needle, 0);
    let i = text::spec_find(text, needle)->0;
    let k = pre.len() + i;
    assert(all.subrange(k, k + needle.len()) =~= text.subrange(i, i + needle.len()));
    assert forall|j: int| 0 <= j < k implies !text::matches_at(all, needle, j) by {
        if j >= pre.len() {
            let h = j - pre.len();
            assert(all.subrange(j, j + needle.len()) =~= text.subrange(h, h + needle.len()));
            assert(!text::matches_at(text, needle, h));
        }
    }
    text::lemma_find_from_unique(all, needle, 0, k);
    let rest = text.skip(i + key.len() + 2);
    assert(all.skip(k + key.len() + 2) =~= rest + post);
    text::lemma_split_once_extended(rest, ':', post);
    let (_, after) = text::spec_split_once(rest, ':')->0;
    text::lemma_split_once_extended(after, '"', post);
    let (_, quoted) = text::spec_split_once(after, '"')->0;
    text::lemma_split_once_extended(quoted, '"', post);
}

/// The bytes of the texts that outputs are named with.
proof fn lemma_aclean()
    ensures
        ({
            let plain = path::bytes_of("_ACLEAN.mkv"@);
            let vd = path::bytes_of("_ACLEAN_VD.mkv"@);
            let mkv = path::bytes_of(".mkv"@);
            &&& plain == path::bytes_of("_ACLEAN"@) + mkv
            &&& vd == path::bytes_of("_ACLEAN_VD"@) + mkv
            &&& path::bytes_of("_VD.mkv"@) == path::bytes_of("_VD"@) + mkv
            &&& mkv == seq![46u8, 109u8, 107u8, 118u8]
            &&& path::bytes_of("_VD"@) == seq![95u8, 86u8, 68u8]
            &&& path::bytes_of("_ACLEAN"@) == seq![95u8, 65u8, 67u8, 76u8, 69u8, 65u8, 78u8]
            &&& path::bytes_of("_ACLEAN_VD"@) == seq![
                95u8,
                65u8,
                67u8,
                76u8,
                69u8,
                65u8,
                78u8,
                95u8,
                86u8,
                68u8,
            ]
            &&& path::bytes_of("EDIT_MASTER"@) == seq![
                69u8,
                68u8,
                73u8,
                84u8,
                95u8,
                77u8,
                65u8,
                83u8,
                84u8,
                69u8,
                82u8,
            ]
            &&& vstd::utf8::valid_utf8(path::bytes_of("_ACLEAN"@))
            &&& vstd::utf8::valid_utf8(path::bytes_of("_ACLEAN_VD"@))
        }),
{
    reveal_strlit("_ACLEAN.mkv");
    reveal_strlit("_ACLEAN_VD.mkv");
    reveal_strlit("_VD.mkv");
    reveal_strlit(".mkv");
    reveal_strlit("_VD");
    reveal_strlit("_ACLEAN");
    reveal_strlit("_ACLEAN_VD");
    reveal_strlit("EDIT_MASTER");
    path::lemma_ascii_bytes("_ACLEAN.mkv"@);
    path::lemma_ascii_bytes("_ACLEAN_VD.mkv"@);
    path::lemma_ascii_bytes("_VD.mkv"@);
    path::lemma_ascii_bytes(".mkv"@);
    path::lemma_ascii_bytes("_VD"@);
    path::lemma_ascii_bytes("_ACLEAN"@);
    path::lemma_ascii_bytes("_ACLEAN_VD"@);
    path::lemma_ascii_bytes("EDIT_MASTER"@);
    vstd::utf8::encode_utf8_valid_utf8("_ACLEAN"@);
    vstd::utf8::encode_utf8_valid_utf8("_ACLEAN_VD"@);
    assert(path::bytes_of("_ACLEAN.mkv"@) =~= path::bytes_of("_ACLEAN"@) + path::bytes_of(".mkv"@));
    assert(path::bytes_of("_ACLEAN_VD.mkv"@) =~= path::bytes_of("_ACLEAN_VD"@) + path::bytes_of(
        ".mkv"@,
    ));
    assert(path::bytes_of("_VD.mkv"@) =~= path::bytes_of("_VD"@) + path::bytes_of(".mkv"@));
    assert(path::bytes_of(".mkv"@) =~= seq![46u8, 109u8, 107u8, 118u8]);
    assert(path::bytes_of("_VD"@) =~= seq![95u8, 86u8, 68u8]);
    assert(path::bytes_of("_ACLEAN"@) =~= seq![95u8, 65u8, 67u8, 76u8, 69u8, 65u8, 78u8]);
    assert(path::bytes_of("_ACLEAN_VD"@) =~= seq![
        95u8,
        65u8,
        67u8,
        76u8,
        69u8,
        65u8,
        78u8,
        95u8,
        86u8,
        68u8,
    ]);
    assert(path::bytes_of("EDIT_MASTER"@) =~= seq![
        69u8,
        68u8,
        73u8,
        84u8,
        95u8,
        77u8,
        65u8,
        83u8,
        84u8,
        69u8,
        82u8,
    ]);
}

/// The output lies beside the input and is not the input.
#[verifier::spinoff_prover]
pub proof fn law_output_is_not_input(input: Seq<u8>)
    ensures
        spec_output_path(input) != input,
        path::spec_file_name(spec_output_path(input)) == Some(spec_output_name(input)),
        path::spec_file_name(input) != Some(spec_output_name(input)),
        path::spec_parent(spec_output_path(input)) == Some(path::spec_dir_of(input)),
{
    lemma_aclean();
    path::lemma_stem_plain(input);
    let stem = path::spec_stem_of(input);
    let name = spec_output_name(input);
    match path::spec_strip_suffix(stem, path::bytes_of("_VD"@)) {
        Some(base) => {
            let tail = path::bytes_of("_ACLEAN_VD.mkv"@);
            reveal_strlit("out");
            path::lemma_ascii_bytes("out"@);
            if stem == path::bytes_of("out"@) {
                assert(stem.skip(0)[0] == 111);
                assert(false);
            }
            assert forall|i: int| 0 <= i < name.len() implies name[i] != path::SEP by {
                if i < base.len() {
                    assert(name[i] == stem[i]);
                } else {
                    assert(name[i] == tail[i - base.len()]);
                }
            }
            path::lemma_placed_beside(input, name);
        },
        None => {
            let tail = path::bytes_of("_ACLEAN"@);
            path::lemma_derived_file(input, tail);
            assert(name =~= stem + tail + path::bytes_of(".mkv"@));
        },
    }
}

/// Whether `name` starts with `prefix`.
pub open spec fn starts_with(name: Seq<u8>, prefix: Seq<u8>) -> bool {
    prefix.len() <= name.len() && name.take(prefix.len() as int) == prefix
}

/// A cleaned file is sorted where its input is: of a file in UTF-8 that ends
/// in `.mkv`, the output is a decimated master (`_VD.mkv` at the end) if the
/// input is, and an edit master (`EDIT_MASTER` in front) if the input is.
#[verifier::spinoff_prover]
pub proof fn law_output_keeps_class(input: Seq<u8>, name: Seq<u8>)
    requires
        path::spec_file_name(input) == Some(name),
        vstd::utf8::valid_utf8(name),
        path::spec_ends_with(name, path::bytes_of(".mkv"@)),
    ensures
        path::spec_ends_with(spec_output_name(input), path::bytes_of("_VD.mkv"@))
            <==> path::spec_ends_with(name, path::bytes_of("_VD.mkv"@)),
        starts_with(spec_output_name(input), path::bytes_of("EDIT_MASTER"@)) <==> starts_with(
            name,
            path::bytes_of("EDIT_MASTER"@),
        ),
{
    lemma_aclean();
    let stem = path::spec_stem_of(input);
    let mkv = path::bytes_of(".mkv"@);
    let vd = path::bytes_of("_VD"@);
    let vd_mkv = path::bytes_of("_VD.mkv"@);
    let out = spec_output_name(input);
    assert(name =~= stem + mkv) by {
        assert(name =~= name.take(name.len() - 4) + name.skip(name.len() - 4));
    }
    if path::spec_ends_with(stem, vd) {
        let base = stem.take(stem.len() - 3);
        assert(stem =~= base + vd) by {
            assert(stem =~= base + stem.skip(stem.len() - 3));
        }
        assert(name.skip(name.len() - 7) =~= vd_mkv);
        assert(out.skip(out.len() - 7) =~= vd_mkv);
        lemma_same_front(base, vd + mkv, path::bytes_of("_ACLEAN_VD"@) + mkv);
        assert(name =~= base + (vd + mkv));
        assert(out =~= base + (path::bytes_of("_ACLEAN_VD"@) + mkv));
    } else {
        let tail = path::bytes_of("_ACLEAN"@);
        if path::spec_ends_with(name, vd_mkv) {
            assert(name.skip(name.len() - 7).take(3) =~= stem.skip(stem.len() - 3));
            assert(vd_mkv.take(3) =~= vd);
        }
        if path::spec_ends_with(out, vd_mkv) {
            assert(out.skip(out.len() - 7)[2] == vd_mkv[2]);
            assert(out[out.len() - 5] == tail[6]);
        }
        lemma_same_front(stem, mkv, tail + mkv);
        assert(out =~= stem + (tail + mkv));
    }
}

/// No two inputs are cleaned into one file: outputs differ wherever the
/// directory or, for files in UTF-8 that end in `.mkv`, the file name or the
/// parent differs.
pub proof fn law_outputs_are_not_shared(a: Seq<u8>, b: Seq<u8>)
    requires
        ({
            ||| path::spec_dir_of(a) != path::spec_dir_of(b)
            ||| is_mkv_text(a) && is_mkv_text(b) && (path::spec_file_name(a)
                != path::spec_file_name(b) || path::spec_parent(a) != path::spec_parent(b))
        }),
    ensures
        spec_output_path(a) != spec_output_path(b),
{
    law_output_is_not_input(a);
    law_output_is_not_input(b);
    if path::spec_dir_of(a) == path::spec_dir_of(b) {
        path::lemma_mkv_name(a);
        path::lemma_mkv_name(b);
        assert(path::spec_stem_of(a) == path::spec_raw_stem_of(a));
        assert(path::spec_stem_of(b) == path::spec_raw_stem_of(b));
        lemma_stems_tell(path::spec_stem_of(a), path::spec_stem_of(b));
    }
}

/// Whether `p` has a file name in UTF-8 that ends in `.mkv`.
pub open spec fn is_mkv_text(p: Seq<u8>) -> bool {
    path::is_mkv(p) && vstd::utf8::valid_utf8(path::spec_file_name(p)->0)
}

/// Different stems give different names.
proof fn lemma_stems_tell(s: Seq<u8>, t: Seq<u8>)
    requires
        s != t,
    ensures
        cleaned_name(s) != cleaned_name(t),
{
    let vd = path::bytes_of("_VD"@);
    if path::spec_ends_with(s, vd) {
        if path::spec_ends_with(t, vd) {
            lemma_decimated_stems_tell(s, t);
        } else {
            lemma_classes_tell(s, t);
        }
    } else if path::spec_ends_with(t, vd) {
        lemma_classes_tell(t, s);
    } else {
        lemma_fronts_tell(s, t, path::bytes_of("_ACLEAN.mkv"@));
    }
}

/// Different fronts with one end differ.
proof fn lemma_fronts_tell(s: Seq<u8>, t: Seq<u8>, end: Seq<u8>)
    requires
        s != t,
    ensures
        s + end != t + end,
{
    if s + end == t + end {
        assert((s + end).len() == (t + end).len());
        assert(s =~= (s + end).take(s.len() as int));
        assert(t =~= (t + end).take(t.len() as int));
    }
}

/// Different stems that end in `_VD` give different names.
proof fn lemma_decimated_stems_tell(s: Seq<u8>, t: Seq<u8>)
    requires
        s != t,
        path::spec_ends_with(s, path::bytes_of("_VD"@)),
        path::spec_ends_with(t, path::bytes_of("_VD"@)),
    ensures
        cleaned_name(s) != cleaned_name(t),
{
    let vd = path::bytes_of("_VD"@);
    let (u, w) = (s.take(s.len() - vd.len()), t.take(t.len() - vd.len()));
    assert(s =~= u + s.skip(s.len() - vd.len()));
    assert(t =~= w + t.skip(t.len() - vd.len()));
    lemma_fronts_tell(u, w, path::bytes_of("_ACLEAN_VD.mkv"@));
}

/// A stem that ends in `_VD` and one that does not give different names.
proof fn lemma_classes_tell(s: Seq<u8>, t: Seq<u8>)
    requires
        path::spec_ends_with(s, path::bytes_of("_VD"@)),
        !path::spec_ends_with(t, path::bytes_of("_VD"@)),
    ensures
        cleaned_name(s) != cleaned_name(t),
{
    lemma_aclean();
    let (m, n) = (cleaned_name(s), cleaned_name(t));
    let (long, short) = (path::bytes_of("_ACLEAN_VD.mkv"@), path::bytes_of("_ACLEAN.mkv"@));
    assert(long[9] == 68 && short[6] == 78);
    assert(m[m.len() - 5] == long[9]);
    assert(n[n.len() - 5] == short[6]);
}

/// A stem ends in `_VD` if the name with `.mkv` ends in `_VD.mkv`.
proof fn lemma_decimated_stem(stem: Seq<u8>)
    ensures
        path::spec_ends_with(
            stem + path::bytes_of(".mkv"@),
            path::bytes_of("_VD.mkv"@),
        ) <==> path::spec_ends_with(stem, path::bytes_of("_VD"@)),
{
    lemma_aclean();
    let name = stem + path::bytes_of(".mkv"@);
    let vd_mkv = path::bytes_of("_VD.mkv"@);
    if path::spec_ends_with(name, vd_mkv) {
        assert(name.skip(name.len() - 7).take(3) =~= stem.skip(stem.len() - 3));
        assert(vd_mkv.take(3) =~= path::bytes_of("_VD"@));
    }
    if path::spec_ends_with(stem, path::bytes_of("_VD"@)) {
        assert(name.skip(name.len() - 7) =~= stem.skip(stem.len() - 3) + path::bytes_of(".mkv"@));
    }
}

/// It does not matter whether a file is cleaned or decimated first: the final
/// output is the same, for a file in UTF-8 that ends in `.mkv` and was not
/// decimated before.
pub proof fn law_cleaning_and_decimating_commute(input: Seq<u8>, name: Seq<u8>)
    requires
        path::spec_file_name(input) == Some(name),
        vstd::utf8::valid_utf8(name),
        path::spec_ends_with(name, path::bytes_of(".mkv"@)),
        !path::spec_ends_with(name, path::bytes_of("_VD.mkv"@)),
    ensures
        spec_output_path(vs_ops::spec_output_path(VsOp::Vdecimate, input))
            == vs_ops::spec_output_path(VsOp::Vdecimate, spec_output_path(input)),
{
    lemma_aclean();
    let stem = path::spec_stem_of(input);
    assert(name =~= stem + path::bytes_of(".mkv"@)) by {
        assert(name =~= name.take(name.len() - 4) + name.skip(name.len() - 4));
    }
    lemma_decimated_stem(stem);
    lemma_decimated_first(input, stem);
    lemma_cleaned_first(input, stem);
}

/// The output of cleaning a decimated file.
#[verifier::spinoff_prover]
proof fn lemma_decimated_first(input: Seq<u8>, stem: Seq<u8>)
    requires
        path::spec_file_name(input) == Some(stem + path::bytes_of(".mkv"@)),
        path::spec_raw_stem_of(input) == stem,
        vstd::utf8::valid_utf8(stem + path::bytes_of(".mkv"@)),
    ensures
        spec_output_path(vs_ops::spec_output_path(VsOp::Vdecimate, input)) == path::spec_join(
            path::spec_dir_of(input),
            stem + path::bytes_of("_ACLEAN_VD.mkv"@),
        ),
{
    lemma_aclean();
    let mkv = path::bytes_of(".mkv"@);
    let vd = path::bytes_of("_VD"@);
    path::lemma_raw_derived_file(input, vd);
    let short = stem + vd;
    lemma_prefix_is_utf8(stem);
    vstd::utf8::encode_utf8_valid_utf8("_VD"@);
    vstd::utf8::encode_utf8_valid_utf8(".mkv"@);
    vstd::utf8::valid_utf8_concat(stem, vd);
    vstd::utf8::valid_utf8_concat(short, mkv);
    assert((short + mkv).skip((short + mkv).len() - 4) =~= mkv);
    assert((short + mkv).take((short + mkv).len() - 4) =~= short);
    assert(path::spec_stem_of(vs_ops::spec_output_path(VsOp::Vdecimate, input)) == short);
    assert(short.skip(short.len() - 3) =~= vd);
    assert(short.take(short.len() - 3) =~= stem);
}

/// The output of decimating a cleaned file that was not decimated before.
#[verifier::spinoff_prover]
proof fn lemma_cleaned_first(input: Seq<u8>, stem: Seq<u8>)
    requires
        path::spec_stem_of(input) == stem,
        !path::spec_ends_with(stem, path::bytes_of("_VD"@)),
    ensures
        vs_ops::spec_output_path(VsOp::Vdecimate, spec_output_path(input)) == path::spec_join(
            path::spec_dir_of(input),
            stem + path::bytes_of("_ACLEAN_VD.mkv"@),
        ),
{
    lemma_aclean();
    law_output_is_not_input(input);
    let mkv = path::bytes_of(".mkv"@);
    let long = stem + path::bytes_of("_ACLEAN"@);
    assert(spec_output_name(input) =~= long + mkv);
    assert((long + mkv).skip((long + mkv).len() - 4) =~= mkv);
    assert((long + mkv).take((long + mkv).len() - 4) =~= long);
    assert(path::spec_raw_stem_of(spec_output_path(input)) == long);
    assert(long + path::bytes_of("_VD"@) + mkv =~= stem + path::bytes_of("_ACLEAN_VD.mkv"@));
}

/// What stands before `.mkv` in a text is a text.
proof fn lemma_prefix_is_utf8(stem: Seq<u8>)
    requires
        vstd::utf8::valid_utf8(stem + path::bytes_of(".mkv"@)),
    ensures
        vstd::utf8::valid_utf8(stem),
{
    lemma_aclean();
    let name = stem + path::bytes_of(".mkv"@);
    let n = stem.len() as int;
    assert(name[n] == 46);
    vstd::utf8::is_char_boundary_iff_not_is_continuation_byte(name, n);
    vstd::utf8::valid_utf8_split(name, n);
    assert(name.subrange(0, n) =~= stem);
}

/// What follows the front of a name does not make it an edit master or
/// unmake it, as long as it starts with a full stop, `_V` or `_A`.
proof fn lemma_same_front(base: Seq<u8>, a: Seq<u8>, b: Seq<u8>)
    requires
        a.len() >= 2 && (a[0] == 46 || (a[0] == 95 && (a[1] == 86 || a[1] == 65))),
        b.len() >= 2 && (b[0] == 46 || (b[0] == 95 && (b[1] == 86 || b[1] == 65))),
    ensures
        starts_with(base + a, path::bytes_of("EDIT_MASTER"@)) <==> starts_with(
            base + b,
            path::bytes_of("EDIT_MASTER"@),
        ),
{
    lemma_aclean();
    if base.len() >= 11 {
        assert((base + a).take(11) =~= base.take(11));
        assert((base + b).take(11) =~= base.take(11));
    } else {
        lemma_not_front(base, a);
        lemma_not_front(base, b);
    }
}

/// A short front followed by a full stop, `_V` or `_A` is not `EDIT_MASTER`.
proof fn lemma_not_front(base: Seq<u8>, a: Seq<u8>)
    requires
        base.len() < 11,
        a.len() >= 2 && (a[0] == 46 || (a[0] == 95 && (a[1] == 86 || a[1] == 65))),
    ensures
        !starts_with(base + a, path::bytes_of("EDIT_MASTER"@)),
{
    lemma_aclean();
    let front = path::bytes_of("EDIT_MASTER"@);
    let n = base.len() as int;
    if starts_with(base + a, front) {
        let t = (base + a).take(11);
        assert(t[n] == a[0] == front[n]);
        assert(n == 4);
        assert(t[5] == a[1] == front[5]);
    }
}

/// Each step of a cleanup works on what an earlier one wrote: noise is reduced
/// in the track without hum (in the extracted one, where hum is not notched)
/// by the profile built from the sample, the result is normalized, and that
/// goes into the output beside the copied video.
#[verifier::spinoff_prover]
#[verifier::rlimit(40)]
pub proof fn law_steps_hand_on(
    input: Seq<u8>,
    output: Seq<u8>,
    work_dir: Seq<u8>,
    params: Params,
    texts: Texts,
)
    ensures
        ({
            let s = spec_steps(input, output, work_dir, params, texts);
            let k = if params.hum_enable {
                2int
            } else {
                1int
            };
            &&& s.len() == k + 5
            &&& s[0].1 matches Action::Run(extract)
            &&& s[k].1 matches Action::Run(sample)
            &&& s[k + 1].1 matches Action::Run(profile)
            &&& s[k + 2].1 matches Action::Run(reduce)
            &&& s[k + 3].1 matches Action::Normalize { input: before, output: after, .. }
            &&& s[k + 4].1 matches Action::Run(remux)
            &&& if params.hum_enable {
                &&& s[1].1 matches Action::Run(notch)
                &&& notch.args[0] == extract.args.last()
                &&& reduce.args[0] == notch.args[1]
            } else {
                reduce.args[0] == extract.args.last()
            }
            &&& profile.args[0] == sample.args.last()
            &&& reduce.args[3] == profile.args.last()
            &&& before == reduce.args[1]
            &&& remux.args[6] == input
            &&& remux.args[10] == after
            &&& remux.args.last() == output
            &&& remux.args.subrange(11, 19) =~= seq![
                path::bytes_of("-map"@),
                path::bytes_of("0:v:0"@),
                path::bytes_of("-map"@),
                path::bytes_of("1:a:0"@),
                path::bytes_of("-c:v"@),
                path::bytes_of("copy"@),
                path::bytes_of("-c:a"@),
                path::bytes_of("pcm_s16le"@),
            ]
        }),
{
    lemma_track_end(
        Line::of(path::bytes_of(FFMPEG@)).texts(
            seq!["-hide_banner", "-nostdin", "-y", "-fflags", "+genpts", "-i"],
        ).arg(input),
        texts.threads@,
        scratch(work_dir, "full.wav"@),
    );
    lemma_remux_args(input, output, work_dir);
}

/// An extraction command ends with the file it writes.
proof fn lemma_track_end(line: Line, threads: Seq<char>, out: Seq<u8>)
    ensures
        spec_pcm_track(line, threads, out).args.last() == out,
{
}

/// The inputs, the stream settings and the output of the last command.
proof fn lemma_remux_args(input: Seq<u8>, output: Seq<u8>, work_dir: Seq<u8>)
    ensures
        ({
            let args = spec_remux(input, output, work_dir).args;
            &&& args[6] == input
            &&& args[10] == scratch(work_dir, "norm.wav"@)
            &&& args.last() == output
            &&& args.subrange(11, 19) =~= seq![
                path::bytes_of("-map"@),
                path::bytes_of("0:v:0"@),
                path::bytes_of("-map"@),
                path::bytes_of("1:a:0"@),
                path::bytes_of("-c:v"@),
                path::bytes_of("copy"@),
                path::bytes_of("-c:a"@),
                path::bytes_of("pcm_s16le"@),
            ]
        }),
{
}

/// Names of two processes, or of two moments, differ, and so do the scratch
/// directories: no two cleanups share one.
#[verifier::spinoff_prover]
pub proof fn law_work_dirs_differ(
    temp_dir: Seq<u8>,
    pid_a: nat,
    nanos_a: nat,
    pid_b: nat,
    nanos_b: nat,
)
    requires
        pid_a != pid_b || nanos_a != nanos_b,
    ensures
        path::spec_join(temp_dir, path::bytes_of(spec_work_dir_name(pid_a, nanos_a)))
            != path::spec_join(temp_dir, path::bytes_of(spec_work_dir_name(pid_b, nanos_b))),
{
    let a = spec_work_dir_name(pid_a, nanos_a);
    let b = spec_work_dir_name(pid_b, nanos_b);
    reveal_strlit("vhs-gui-audiocleanup-");
    reveal_strlit("-");
    text::lemma_digits_plain(pid_a);
    text::lemma_digits_plain(pid_b);
    text::lemma_digits_plain(nanos_a);
    text::lemma_digits_plain(nanos_b);
    let prefix = "vhs-gui-audiocleanup-"@;
    let n = prefix.len() as int;
    let (da, db) = (text::digits(pid_a), text::digits(pid_b));
    let (ta, tb) = (text::digits(nanos_a), text::digits(nanos_b));
    if a == b {
        if da.len() < db.len() {
            assert(a[n + da.len()] == '-');
            assert(b[n + da.len()] == db[da.len() as int]);
        } else if db.len() < da.len() {
            assert(b[n + db.len()] == '-');
            assert(a[n + db.len()] == da[db.len() as int]);
        } else {
            let k = n + da.len();
            assert(a.subrange(n, k) =~= da);
            assert(b.subrange(n, k) =~= db);
            assert(a.skip(k + 1) =~= ta);
            assert(b.skip(k + 1) =~= tb);
            text::law_decimal_is_faithful(pid_a, pid_b);
            text::law_decimal_is_faithful(nanos_a, nanos_b);
        }
        assert(false);
    }
    assert forall|i: int| 0 <= i < a.len() implies '\0' <= #[trigger] a[i] <= '\u{7f}' by {
        if i < n {
            assert(a[i] == prefix[i]);
        } else if i < n + da.len() {
            assert(a[i] == da[i - n]);
        } else if i > n + da.len() {
            assert(a[i] == ta[i - n - da.len() - 1]);
        }
    }
    assert forall|i: int| 0 <= i < b.len() implies '\0' <= #[trigger] b[i] <= '\u{7f}' by {
        if i < n {
            assert(b[i] == prefix[i]);
        } else if i < n + db.len() {
            assert(b[i] == db[i - n]);
        } else if i > n + db.len() {
            assert(b[i] == tb[i - n - db.len() - 1]);
        }
    }
    path::lemma_ascii_bytes(a);
    path::lemma_ascii_bytes(b);
    let (x, y) = (path::bytes_of(a), path::bytes_of(b));
    vstd::utf8::encode_utf8_decode_utf8(a);
    vstd::utf8::encode_utf8_decode_utf8(b);
    assert(x != y);
    let (p, q) = (path::spec_join(temp_dir, x), path::spec_join(temp_dir, y));
    assert(a[0] == prefix[0] && b[0] == prefix[0]);
    assert(x[0] == 118 && y[0] == 118);
    if p == q {
        let m = p.len() - x.len();
        assert(p.skip(m) =~= x);
        assert(q.skip(m) =~= y);
    }
}

/// Knobs are equal where each of them has the same value, and different where
/// one differs.
pub proof fn law_params_compare(a: Params, b: Params)
    ensures
        PartialEqSpec::eq_spec(&a, &b) ==> {
            &&& a.hum_enable == b.hum_enable
            &&& a.noise_start_secs.value() == b.noise_start_secs.value()
            &&& a.noise_len_secs.value() == b.noise_len_secs.value()
            &&& a.nr_amount.value() == b.nr_amount.value()
            &&& a.loudnorm_target_i.value() == b.loudnorm_target_i.value()
        },
        !a.noise_start_secs.is_nan() && !a.noise_len_secs.is_nan() && !a.nr_amount.is_nan()
            && !a.loudnorm_target_i.is_nan() ==> PartialEqSpec::eq_spec(&a, &a),
        a.noise_start_secs.is_nan() || a.noise_len_secs.is_nan() || a.nr_amount.is_nan()
            || a.loudnorm_target_i.is_nan() ==> !PartialEqSpec::eq_spec(&a, &b) && !PartialEqSpec::eq_spec(&b, &a),
{
}

/// Noise is reduced by the amount that was asked for: it is the last argument,
/// behind the profile.
pub proof fn law_noise_reduction_uses_amount(track: Seq<u8>, work_dir: Seq<u8>, texts: Texts)
    ensures
        spec_noisered(track, work_dir, texts).program == path::bytes_of("/usr/bin/sox"@),
        spec_noisered(track, work_dir, texts).envs.len() == 0,
        spec_noisered(track, work_dir, texts).args.last() == path::bytes_of(texts.nr_amount@),
        spec_noisered(track, work_dir, texts).args == seq![
            track,
            path::spec_join(work_dir, path::bytes_of("clean.wav"@)),
            path::bytes_of("noisered"@),
            path::spec_join(work_dir, path::bytes_of("noise.prof"@)),
            path::bytes_of(texts.nr_amount@),
        ],
{
}

/// Cleanups that ask for different amounts of noise reduction, or for different
/// loudness targets, run different steps.
#[verifier::spinoff_prover]
#[verifier::rlimit(40)]
pub proof fn law_amounts_tell(
    input: Seq<u8>,
    output: Seq<u8>,
    work_dir: Seq<u8>,
    params: Params,
    a: Texts,
    b: Texts,
)
    ensures
        ({
            let s = spec_steps(input, output, work_dir, params, a);
            let t = spec_steps(input, output, work_dir, params, b);
            let k = if params.hum_enable {
                4int
            } else {
                3int
            };
            &&& a.nr_amount@ != b.nr_amount@ ==> s[k].1 != t[k].1
            &&& a.target_i@ != b.target_i@ ==> s[k + 1].1 != t[k + 1].1
        }),
{
    path::law_bytes_are_faithful(a.nr_amount@, b.nr_amount@);
    let track = if params.hum_enable {
        path::spec_join(work_dir, path::bytes_of("hum.wav"@))
    } else {
        path::spec_join(work_dir, path::bytes_of("full.wav"@))
    };
    law_noise_reduction_uses_amount(track, work_dir, a);
    law_noise_reduction_uses_amount(track, work_dir, b);
    law_steps(input, output, work_dir, params, a);
    law_steps(input, output, work_dir, params, b);
}

/// The steps of a cleanup, in order, with what each is called. Only the
/// notching of hum is left out where it is switched off.
#[verifier::spinoff_prover]
#[verifier::rlimit(40)]
pub proof fn law_steps(
    input: Seq<u8>,
    output: Seq<u8>,
    work_dir: Seq<u8>,
    params: Params,
    texts: Texts,
)
    ensures
        ({
            let full = path::spec_join(work_dir, path::bytes_of("full.wav"@));
            let hum = path::spec_join(work_dir, path::bytes_of("hum.wav"@));
            let extract = (
                "Extracting audio..."@,
                Action::Run(spec_extract_full(input, work_dir, texts)),
            );
            let notch = ("Notching hum..."@, Action::Run(spec_hum_notch(work_dir)));
            let sample = (
                "Sampling noise profile..."@,
                Action::Run(spec_extract_sample(input, work_dir, params, texts)),
            );
            let profile = ("Building noise profile..."@, Action::Run(spec_noiseprof(work_dir)));
            let normalize = (
                "Loudness normalizing..."@,
                Action::Normalize {
                    input: path::spec_join(work_dir, path::bytes_of("clean.wav"@)),
                    output: path::spec_join(work_dir, path::bytes_of("norm.wav"@)),
                    target_i: texts.target_i@,
                    threads: texts.threads@,
                },
            );
            let remux = ("Remuxing..."@, Action::Run(spec_remux(input, output, work_dir)));
            let s = spec_steps(input, output, work_dir, params, texts);
            &&& params.hum_enable ==> s == seq![
                extract,
                notch,
                sample,
                profile,
                (
                    "Reducing broadband noise..."@,
                    Action::Run(spec_noisered(hum, work_dir, texts)),
                ),
                normalize,
                remux,
            ]
            &&& !params.hum_enable ==> s == seq![
                extract,
                sample,
                profile,
                (
                    "Reducing broadband noise..."@,
                    Action::Run(spec_noisered(full, work_dir, texts)),
                ),
                normalize,
                remux,
            ]
        }),
{
}

/// The whole first audio track is extracted as 16-bit PCM in stereo at 48 kHz.
#[verifier::spinoff_prover]
#[verifier::rlimit(60)]
pub proof fn law_extraction_is_complete(input: Seq<u8>, work_dir: Seq<u8>, texts: Texts)
    ensures
        spec_extract_full(input, work_dir, texts).program == path::bytes_of("/usr/bin/ffmpeg"@),
        spec_extract_full(input, work_dir, texts).envs.len() == 0,
        spec_extract_full(input, work_dir, texts).args == seq![
            path::bytes_of("-hide_banner"@),
            path::bytes_of("-nostdin"@),
            path::bytes_of("-y"@),
            path::bytes_of("-fflags"@),
            path::bytes_of("+genpts"@),
            path::bytes_of("-i"@),
            input,
            path::bytes_of("-vn"@),
            path::bytes_of("-map"@),
            path::bytes_of("0:a:0"@),
            path::bytes_of("-af"@),
            path::bytes_of("highpass=f=20,aresample=async=0:first_pts=0,asetpts=N/SR/TB"@),
            path::bytes_of("-ac"@),
            path::bytes_of("2"@),
            path::bytes_of("-ar"@),
            path::bytes_of("48000"@),
            path::bytes_of("-c:a"@),
            path::bytes_of("pcm_s16le"@),
            path::bytes_of("-threads"@),
            path::bytes_of(texts.threads@),
            path::spec_join(work_dir, path::bytes_of("full.wav"@)),
        ],
{
}

/// The noise sample starts and lasts as asked for, and is otherwise extracted
/// as the whole track is.
#[verifier::spinoff_prover]
#[verifier::rlimit(80)]
pub proof fn law_sampling_is_complete(
    input: Seq<u8>,
    work_dir: Seq<u8>,
    params: Params,
    texts: Texts,
)
    ensures
        spec_extract_sample(input, work_dir, params, texts).program == path::bytes_of(
            "/usr/bin/ffmpeg"@,
        ),
        spec_extract_sample(input, work_dir, params, texts).envs.len() == 0,
        spec_extract_sample(input, work_dir, params, texts).args == seq![
            path::bytes_of("-hide_banner"@),
            path::bytes_of("-nostdin"@),
            path::bytes_of("-y"@),
            path::bytes_of("-fflags"@),
            path::bytes_of("+genpts"@),
            path::bytes_of("-ss"@),
            path::bytes_of(spec_hhmmss(params.noise_start_secs)),
            path::bytes_of("-t"@),
            path::bytes_of(spec_hhmmss(params.noise_len_secs)),
            path::bytes_of("-i"@),
            input,
            path::bytes_of("-vn"@),
            path::bytes_of("-map"@),
            path::bytes_of("0:a:0"@),
            path::bytes_of("-af"@),
            path::bytes_of("highpass=f=20,aresample=async=0:first_pts=0,asetpts=N/SR/TB"@),
            path::bytes_of("-ac"@),
            path::bytes_of("2"@),
            path::bytes_of("-ar"@),
            path::bytes_of("48000"@),
            path::bytes_of("-c:a"@),
            path::bytes_of("pcm_s16le"@),
            path::bytes_of("-threads"@),
            path::bytes_of(texts.threads@),
            path::spec_join(work_dir, path::bytes_of("sample.wav"@)),
        ],
{
}

/// The mains frequency of 60 Hz, twice and three times as much are notched out.
pub proof fn law_notch_is_complete(work_dir: Seq<u8>)
    ensures
        spec_hum_notch(work_dir).program == path::bytes_of("/usr/bin/sox"@),
        spec_hum_notch(work_dir).envs.len() == 0,
        spec_hum_notch(work_dir).args == seq![
            path::spec_join(work_dir, path::bytes_of("full.wav"@)),
            path::spec_join(work_dir, path::bytes_of("hum.wav"@)),
            path::bytes_of("bandreject"@),
            path::bytes_of("60"@),
            path::bytes_of("2q"@),
            path::bytes_of("bandreject"@),
            path::bytes_of("120"@),
            path::bytes_of("2q"@),
            path::bytes_of("bandreject"@),
            path::bytes_of("180"@),
            path::bytes_of("2q"@),
        ],
{
    reveal_strlit("60");
    reveal_strlit("120");
    reveal_strlit("180");
    reveal_with_fuel(text::digits, 4);
    assert(text::digits(60) =~= "60"@);
    assert(text::digits(120) =~= "120"@);
    assert(text::digits(180) =~= "180"@);
}

/// The profile is built from the sample.
pub proof fn law_profile_is_complete(work_dir: Seq<u8>)
    ensures
        spec_noiseprof(work_dir).program == path::bytes_of("/usr/bin/sox"@),
        spec_noiseprof(work_dir).envs.len() == 0,
        spec_noiseprof(work_dir).args == seq![
            path::spec_join(work_dir, path::bytes_of("sample.wav"@)),
            path::bytes_of("-n"@),
            path::bytes_of("noiseprof"@),
            path::spec_join(work_dir, path::bytes_of("noise.prof"@)),
        ],
{
}

/// The video of the input is copied beside the normalized track.
#[verifier::spinoff_prover]
#[verifier::rlimit(80)]
pub proof fn law_remux_is_complete(input: Seq<u8>, output: Seq<u8>, work_dir: Seq<u8>)
    ensures
        spec_remux(input, output, work_dir).program == path::bytes_of("/usr/bin/ffmpeg"@),
        spec_remux(input, output, work_dir).envs.len() == 0,
        spec_remux(input, output, work_dir).args == seq![
            path::bytes_of("-hide_banner"@),
            path::bytes_of("-nostdin"@),
            path::bytes_of("-y"@),
            path::bytes_of("-fflags"@),
            path::bytes_of("+genpts"@),
            path::bytes_of("-i"@),
            input,
            path::bytes_of("-fflags"@),
            path::bytes_of("+genpts"@),
            path::bytes_of("-i"@),
            path::spec_join(work_dir, path::bytes_of("norm.wav"@)),
            path::bytes_of("-map"@),
            path::bytes_of("0:v:0"@),
            path::bytes_of("-map"@),
            path::bytes_of("1:a:0"@),
            path::bytes_of("-c:v"@),
            path::bytes_of("copy"@),
            path::bytes_of("-c:a"@),
            path::bytes_of("pcm_s16le"@),
            path::bytes_of("-avoid_negative_ts"@),
            path::bytes_of("make_zero"@),
            path::bytes_of("-shortest"@),
            output,
        ],
{
}

/// Both passes of the normalization ask for the same: the target, a true peak
/// of -1.5 and a loudness range of 11. The measuring pass prints its findings
/// and writes nothing.
pub proof fn law_both_passes_ask_for_the_target(
    input: Seq<u8>,
    output: Seq<u8>,
    target_i: Seq<char>,
    threads: Seq<char>,
    m: Measured,
)
    ensures
        ({
            let goal = "loudnorm=I="@ + target_i + ":TP=-1.5:LRA=11"@;
            let filter = spec_correcting_filter(target_i, m);
            &&& goal.len() <= filter.len()
            &&& filter.take(goal.len() as int) == goal
            &&& filter == goal + ":measured_I="@ + m.i + ":measured_TP="@ + m.tp
                + ":measured_LRA="@ + m.lra + ":measured_thresh="@ + m.thresh + ":offset="@
                + m.offset + ":linear=true:print_format=summary"@
            &&& spec_measure(input, target_i).program == path::bytes_of("/usr/bin/ffmpeg"@)
            &&& spec_measure(input, target_i).envs.len() == 0
            &&& spec_measure(input, target_i).args == seq![
                path::bytes_of("-hide_banner"@),
                path::bytes_of("-nostdin"@),
                path::bytes_of("-i"@),
                input,
                path::bytes_of("-af"@),
                path::bytes_of(goal + ":print_format=json"@),
                path::bytes_of("-f"@),
                path::bytes_of("null"@),
                path::bytes_of("-"@),
            ]
            &&& spec_apply(input, output, target_i, threads, m).program == path::bytes_of(
                "/usr/bin/ffmpeg"@,
            )
            &&& spec_apply(input, output, target_i, threads, m).envs.len() == 0
            &&& spec_apply(input, output, target_i, threads, m).args == seq![
                path::bytes_of("-hide_banner"@),
                path::bytes_of("-nostdin"@),
                path::bytes_of("-y"@),
                path::bytes_of("-i"@),
                input,
                path::bytes_of("-af"@),
                path::bytes_of(filter),
                path::bytes_of("-ar"@),
                path::bytes_of("48000"@),
                path::bytes_of("-c:a"@),
                path::bytes_of("pcm_s16le"@),
                path::bytes_of("-threads"@),
                path::bytes_of(threads),
                output,
            ]
        }),
{
    lemma_goal(target_i);
    let goal = "loudnorm=I="@ + target_i + ":TP=-1.5:LRA=11"@;
    let filter = spec_correcting_filter(target_i, m);
    assert(filter.take(goal.len() as int) =~= goal);
}

/// What both passes ask for, joined.
proof fn lemma_goal(target_i: Seq<char>)
    ensures
        "loudnorm=I="@ + target_i + ":TP="@ + LOUDNORM_TP@ + ":LRA="@ + LOUDNORM_LRA@
            == "loudnorm=I="@ + target_i + ":TP=-1.5:LRA=11"@,
{
    reveal_strlit(":TP=");
    reveal_strlit("-1.5");
    reveal_strlit(":LRA=");
    reveal_strlit("11");
    reveal_strlit(":TP=-1.5:LRA=11");
    let front = "loudnorm=I="@ + target_i;
    assert(":TP="@ + "-1.5"@ + ":LRA="@ + "11"@ =~= ":TP=-1.5:LRA=11"@);
    assert(front + ":TP="@ + "-1.5"@ + ":LRA="@ + "11"@ =~= front + (":TP="@ + "-1.5"@ + ":LRA="@
        + "11"@));
}

/// Different targets give different filters, whatever was measured, as long as
/// no target holds a colon.
pub proof fn law_targets_tell(a: Seq<char>, b: Seq<char>, m: Measured, n: Measured)
    requires
        forall|i: int| 0 <= i < a.len() ==> a[i] != ':',
        forall|i: int| 0 <= i < b.len() ==> b[i] != ':',
        a != b,
    ensures
        spec_correcting_filter(a, m) != spec_correcting_filter(b, n),
{
    lemma_filter_front(a, m);
    lemma_filter_front(b, n);
    if spec_correcting_filter(a, m) == spec_correcting_filter(b, n) {
        lemma_one_target(spec_correcting_filter(a, m), a, b);
    }
}

/// The filter starts with what is asked for.
proof fn lemma_filter_front(target_i: Seq<char>, m: Measured)
    ensures
        goes_for(spec_correcting_filter(target_i, m), target_i),
{
    lemma_goal(target_i);
    let goal = "loudnorm=I="@ + target_i + ":TP=-1.5:LRA=11"@;
    let filter = spec_correcting_filter(target_i, m);
    assert(filter.take(goal.len() as int) =~= goal);
}

/// Whether a filter starts with the settings for a target.
spec fn goes_for(filter: Seq<char>, target_i: Seq<char>) -> bool {
    let goal = "loudnorm=I="@ + target_i + ":TP=-1.5:LRA=11"@;
    goal.len() <= filter.len() && filter.take(goal.len() as int) == goal
}

/// A filter goes for one target only.
#[verifier::spinoff_prover]
proof fn lemma_one_target(x: Seq<char>, a: Seq<char>, b: Seq<char>)
    requires
        forall|i: int| 0 <= i < a.len() ==> a[i] != ':',
        forall|i: int| 0 <= i < b.len() ==> b[i] != ':',
        goes_for(x, a),
        goes_for(x, b),
    ensures
        a == b,
{
    reveal_strlit("loudnorm=I=");
    reveal_strlit(":TP=-1.5:LRA=11");
    let ga = "loudnorm=I="@ + a + ":TP=-1.5:LRA=11"@;
    let gb = "loudnorm=I="@ + b + ":TP=-1.5:LRA=11"@;
    let (i, j) = ((11 + a.len()) as int, (11 + b.len()) as int);
    assert(x[i] == x.take(ga.len() as int)[i] == ga[i] == ':');
    assert(x[j] == x.take(gb.len() as int)[j] == gb[j] == ':');
    if a.len() < b.len() {
        assert(x[i] == x.take(gb.len() as int)[i] == gb[i] == b[a.len() as int]);
    } else if b.len() < a.len() {
        assert(x[j] == x.take(ga.len() as int)[j] == ga[j] == a[b.len() as int]);
    } else {
        assert(ga.subrange(11, i) =~= a);
        assert(gb.subrange(11, i) =~= b);
    }
}

/// The measured values are those of the five keys, each in its own place; all
/// of them have to be there.
pub proof fn law_measured_values(text: Seq<char>)
    ensures
        spec_measured(text) is Some <==> spec_json_field(text, "input_i"@) is Some
            && spec_json_field(text, "input_tp"@) is Some && spec_json_field(text, "input_lra"@)
            is Some && spec_json_field(text, "input_thresh"@) is Some && spec_json_field(
            text,
            "target_offset"@,
        ) is Some,
        spec_measured(text) matches Some(m) ==> {
            &&& spec_json_field(text, "input_i"@) == Some(m.i)
            &&& spec_json_field(text, "input_tp"@) == Some(m.tp)
            &&& spec_json_field(text, "input_lra"@) == Some(m.lra)
            &&& spec_json_field(text, "input_thresh"@) == Some(m.thresh)
            &&& spec_json_field(text, "target_offset"@) == Some(m.offset)
        },
{
}

/// A field is read whatever stands between key, colon and value; a key that
/// does not occur in quotes has no value.
pub proof fn law_json_field_spacing(
    pre: Seq<char>,
    key: Seq<char>,
    before: Seq<char>,
    after: Seq<char>,
    value: Seq<char>,
    post: Seq<char>,
)
    requires
        forall|j: int| 0 <= j < before.len() ==> before[j] != ':',
        forall|j: int| 0 <= j < after.len() ==> after[j] != '"',
        forall|j: int| 0 <= j < value.len() ==> value[j] != '"',
    ensures
        ({
            let quoted = seq!['"'] + key + seq!['"'];
            let tail = before + seq![':'] + (after + seq!['"'] + (value + seq!['"'] + post));
            let text = pre + quoted + tail;
            (forall|j: int| 0 <= j < pre.len() ==> !text::matches_at(text, quoted, j))
                ==> spec_json_field(text, key) == Some(value)
        }),
        (forall|j: int|
            0 <= j ==> !#[trigger] text::matches_at(pre, seq!['"'] + key + seq!['"'], j))
            ==> spec_json_field(pre, key) is None,
{
    let quoted = seq!['"'] + key + seq!['"'];
    let last = value + seq!['"'] + post;
    let middle = after + seq!['"'] + last;
    let tail = before + seq![':'] + middle;
    let text = pre + quoted + tail;
    let i = pre.len() as int;
    assert(text.subrange(i, i + quoted.len()) =~= quoted);
    if forall|j: int| 0 <= j < pre.len() ==> !text::matches_at(text, quoted, j) {
        text::lemma_find_from_unique(text, quoted, 0, i);
        assert(text.skip(i + key.len() + 2) =~= tail);
        text::law_split_once_rejoins(before, ':', middle);
        text::law_split_once_rejoins(after, '"', last);
        text::law_split_once_rejoins(value, '"', post);
    }
    text::lemma_find_from_sound(pre, quoted, 0);
}

/// The scratch directory lies in the directory for temporary files, and its
/// name tells the process and the moment.
pub proof fn law_work_dir_name(pid: nat, nanos: nat)
    ensures
        exists|a: Seq<char>, b: Seq<char>|
            #![trigger text::all_digits(a), text::all_digits(b)]
            spec_work_dir_name(pid, nanos) == "vhs-gui-audiocleanup-"@ + a + "-"@ + b
                && text::all_digits(a) && text::all_digits(b) && text::number(a) == pid
                && text::number(b) == nanos,
{
    text::law_decimal_reads_back(pid);
    text::law_decimal_reads_back(nanos);
    let (a, b) = (text::digits(pid), text::digits(nanos));
    assert(text::all_digits(a) && text::all_digits(b));
}

/// The cleaned file stands beside the input: `_ACLEAN` is put before `.mkv`, or
/// before `_VD.mkv` for a decimated file.
pub proof fn law_output_name(dir: Seq<u8>, stem: Seq<u8>)
    requires
        path::is_name(stem + path::bytes_of(".mkv"@)),
        vstd::utf8::valid_utf8(stem + path::bytes_of(".mkv"@)),
    ensures
        ({
            let input = path::spec_join(dir, stem + path::bytes_of(".mkv"@));
            let vd = path::bytes_of("_VD"@);
            &&& !path::spec_ends_with(stem, vd) ==> spec_output_path(input) == path::spec_join(
                path::trimmed(dir),
                stem + path::bytes_of("_ACLEAN.mkv"@),
            )
            &&& forall|base: Seq<u8>|
                stem == #[trigger] (base + vd) ==> spec_output_path(input) == path::spec_join(
                    path::trimmed(dir),
                    base + path::bytes_of("_ACLEAN_VD.mkv"@),
                )
        }),
{
    let mkv = path::bytes_of(".mkv"@);
    let vd = path::bytes_of("_VD"@);
    path::law_join_splits_again(dir, stem + mkv);
    path::law_suffix_comes_off(stem, mkv);
    assert forall|base: Seq<u8>| stem == #[trigger] (base + vd) implies path::spec_strip_suffix(
        stem,
        vd,
    ) == Some(base) by {
        path::law_suffix_comes_off(base, vd);
    }
}

/// What is told: the tool or the input that was not found.
pub proof fn law_messages(error: CleanupError, shown: Seq<char>)
    ensures
        error.spec_message(shown) == (match error {
            CleanupError::FfmpegNotFound => "ffmpeg not found: /usr/bin/ffmpeg"@,
            CleanupError::SoxNotFound =>
                "sox not found: /usr/bin/sox. Install with: sudo apt-get install sox"@,
            CleanupError::InputNotFound => "input not found: "@ + shown,
        }),
{
    reveal_strlit("ffmpeg");
    reveal_strlit("sox");
    reveal_strlit("input");
    reveal_strlit(" not found: ");
    reveal_strlit("/usr/bin/ffmpeg");
    reveal_strlit("/usr/bin/sox");
    reveal_strlit(". Install with: sudo apt-get install sox");
    reveal_strlit("ffmpeg not found: /usr/bin/ffmpeg");
    reveal_strlit("sox not found: /usr/bin/sox. Install with: sudo apt-get install sox");
    reveal_strlit("input not found: ");
    assert("ffmpeg"@ + " not found: "@ + "/usr/bin/ffmpeg"@
        =~= "ffmpeg not found: /usr/bin/ffmpeg"@);
    assert("sox"@ + " not found: "@ + "/usr/bin/sox"@
        + ". Install with: sudo apt-get install sox"@
        =~= "sox not found: /usr/bin/sox. Install with: sudo apt-get install sox"@);
    assert("input"@ + " not found: "@ =~= "input not found: "@);
}

/// A time stamp shows whole hours, minutes below 60 and seconds with two
/// decimals, which together are the closest hundredths to the time. It holds
/// of times below `2^53` seconds; what is not positive is shown as zero.
#[verifier::spinoff_prover]
#[verifier::rlimit(60)]
pub proof fn law_time_stamp_reads_back(secs: Binary64)
    ensures
        !secs.spec_positive() ==> spec_hhmmss(secs) == "00:00:00.00"@,
        secs.spec_positive() && secs.value() < 0x20_0000_0000_0000 * binary64::one() ==> exists|
            h: nat,
            m: nat,
            n: nat,
        |
            is_stamp(spec_hhmmss(secs), h, m, n) && #[trigger] is_close(secs, h, m, n),
{
    reveal(spec_hhmmss);
    if !secs.spec_positive() {
        lemma_zero_stamp();
    } else if secs.value() < 0x20_0000_0000_0000 * binary64::one() {
        let u = secs.magnitude();
        assert(!secs.negative() && secs.value() == u);
        lemma_is_finite(secs);
        lemma_stamp_parts(secs);
        let (h, m, n) = stamp_parts(secs);
        lemma_parts_are_close(u, h, m, n);
        assert(is_close(secs, h, m, n));
        assert(spec_hhmmss(secs) =~= text::padded_digits(h, 2) + ":"@ + text::padded_digits(m, 2)
            + ":"@ + (text::padded_digits(n / 100, 2) + "."@ + text::padded_digits(n % 100, 2)));
    }
}

/// Whether `s` shows `h` hours, `m` minutes and `n` hundredths of seconds, with
/// two digits at least for each number.
pub open spec fn is_stamp(s: Seq<char>, h: nat, m: nat, n: nat) -> bool {
    s == text::padded_digits(h, 2) + ":"@ + text::padded_digits(m, 2) + ":"@ + (
    text::padded_digits(n / 100, 2) + "."@ + text::padded_digits(n % 100, 2))
}

/// Whether the hundredths in `h` hours, `m` minutes and `n` hundredths are the
/// closest to `secs`, with minutes and seconds in their range.
pub open spec fn is_close(secs: Binary64, h: nat, m: nat, n: nat) -> bool {
    let error = (360_000 * h + 6000 * m + n) * binary64::one() - 100 * secs.value();
    &&& m < 60
    &&& n <= 6000
    &&& -(binary64::one() as int) <= 2 * error <= binary64::one()
}

/// The hours, minutes and hundredths of seconds of a time.
spec fn stamp_parts(secs: Binary64) -> (nat, nat, nat) {
    let (u, one) = (secs.magnitude(), binary64::one());
    (
        u / (3600 * one),
        (u % (3600 * one)) / (60 * one),
        binary64::spec_rounded(u % (60 * one), 100),
    )
}

/// A time below `2^53` seconds is finite.
proof fn lemma_is_finite(secs: Binary64)
    requires
        secs.magnitude() < 0x20_0000_0000_0000 * binary64::one(),
    ensures
        secs.is_finite(),
{
    let one = binary64::one();
    lemma_pow2_pos(1074);
    if !secs.is_finite() {
        let edge = Binary64 { bits: 0x7FE0_0000_0000_0000 };
        assert(edge.exponent() == 2046 && edge.fraction() == 0);
        binary64::lemma_magnitude_order(edge, secs);
        vstd::arithmetic::power2::lemma_pow2_adds(1074, 971);
        vstd::arithmetic::power2::lemma2_to64();
        vstd::arithmetic::power2::lemma_pow2_strictly_increases(1, 971);
        let big = vstd::arithmetic::power2::pow2(971);
        assert(0x10_0000_0000_0000 * (one * big) >= 0x20_0000_0000_0000 * one) by (nonlinear_arith)
            requires
                big >= 2,
        ;
    }
}

/// What is left of a time once `c` seconds are taken away as often as they fit.
proof fn lemma_left(secs: Binary64, c: nat)
    requires
        secs.is_finite(),
        !secs.negative(),
        0 < c <= 3600,
    ensures
        ({
            let r = secs.spec_remainder(c);
            &&& r.is_finite()
            &&& !r.negative()
            &&& r.magnitude() == secs.magnitude() % (c * binary64::one())
        }),
{
    let u = secs.magnitude();
    let whole = c * binary64::one();
    lemma_pow2_pos(1074);
    assert(whole > 0) by (nonlinear_arith)
        requires
            whole == c * binary64::one(),
            c > 0,
            binary64::one() > 0,
    ;
    ieee::law_remainder_is_exact(secs, c);
    let r = secs.spec_remainder(c).magnitude();
    let q = (u - r) / whole as int;
    vstd::arithmetic::div_mod::lemma_fundamental_div_mod(u - r, whole as int);
    assert(whole * q == q * whole) by (nonlinear_arith);
    vstd::arithmetic::div_mod::lemma_fundamental_div_mod_converse(
        u as int,
        whole as int,
        q,
        r as int,
    );
}

/// The pieces of a time stamp.
#[verifier::spinoff_prover]
proof fn lemma_stamp_parts(secs: Binary64)
    requires
        secs.is_finite(),
        !secs.negative(),
        secs.magnitude() < 0x20_0000_0000_0000 * binary64::one(),
    ensures
        ({
            let (h, m, n) = stamp_parts(secs);
            &&& binary64::spec_truncated(secs.spec_quotient(Binary64 { bits: ieee::HOUR })) == h
            &&& binary64::spec_truncated(
                secs.spec_remainder(3600).spec_quotient(Binary64 { bits: ieee::MINUTE }),
            ) == m
            &&& !secs.spec_remainder(60).is_nan()
            &&& binary64::spec_rounded(secs.spec_remainder(60).magnitude(), 100) == n
        }),
{
    ieee::law_constants();
    let (hour, minute) = (Binary64 { bits: ieee::HOUR }, Binary64 { bits: ieee::MINUTE });
    ieee::law_whole_quotient(secs, hour, 3600);
    lemma_left(secs, 3600);
    lemma_left(secs, 60);
    lemma_pow2_pos(1074);
    lemma_mod_bound(secs.magnitude() as int, (3600 * binary64::one()) as int);
    ieee::law_whole_quotient(secs.spec_remainder(3600), minute, 60);
}

/// The pieces of a time make up the time.
proof fn lemma_parts_are_close(u: nat, h: nat, m: nat, n: nat)
    requires
        ({
            let one = binary64::one();
            &&& h == u / (3600 * one)
            &&& m == (u % (3600 * one)) / (60 * one)
            &&& n == binary64::spec_rounded(u % (60 * one), 100)
        }),
    ensures
        ({
            let error = (360_000 * h + 6000 * m + n) * binary64::one() - 100 * u;
            &&& m < 60
            &&& n <= 6000
            &&& -(binary64::one() as int) <= 2 * error <= binary64::one()
        }),
{
    let one = binary64::one();
    lemma_pow2_pos(1074);
    let (hour, minute) = (3600 * one, 60 * one);
    let r = u % hour;
    vstd::arithmetic::div_mod::lemma_fundamental_div_mod(u as int, hour as int);
    lemma_mod_bound(u as int, hour as int);
    vstd::arithmetic::div_mod::lemma_fundamental_div_mod(r as int, minute as int);
    lemma_mod_bound(r as int, minute as int);
    let s = r % minute;
    assert(u == hour * h + r && r == minute * m + s);
    assert(hour * h == minute * (60 * h)) by (nonlinear_arith)
        requires
            hour == 60 * minute,
    ;
    assert(minute * (60 * h + m) == minute * (60 * h) + minute * m) by (nonlinear_arith);
    let q = 60 * h + m;
    assert(minute * q == q * minute) by (nonlinear_arith);
    vstd::arithmetic::div_mod::lemma_fundamental_div_mod_converse(
        u as int,
        minute as int,
        q as int,
        s as int,
    );
    assert(u % minute == s);
    assert(m < 60) by (nonlinear_arith)
        requires
            minute * m <= r,
            r < 60 * minute,
            minute > 0,
    ;
    binary64::law_rounded_is_closest(s, 100);
    assert(n <= 6000) by (nonlinear_arith)
        requires
            2 * (n * one - s * 100) <= one,
            s < 60 * one,
            one > 0,
    ;
    assert((360_000 * h + 6000 * m + n) * one == 100 * (3600 * one) * h + 100 * (60 * one) * m + n
        * one) by (nonlinear_arith);
    assert(100 * (3600 * one) * h == 100 * (hour * h)) by (nonlinear_arith)
        requires
            hour == 3600 * one,
    ;
    assert(100 * (60 * one) * m == 100 * (minute * m)) by (nonlinear_arith)
        requires
            minute == 60 * one,
    ;
}

/// The time stamp of zero.
proof fn lemma_zero_stamp()
    ensures
        spec_hhmmss(Binary64 { bits: 0 }) == "00:00:00.00"@,
{
    reveal(spec_hhmmss);
    let zero = Binary64 { bits: 0 };
    binary64::lemma_magnitude_zero(zero);
    assert(!zero.spec_positive());
    assert(zero.is_finite() && !zero.negative());
    lemma_pow2_pos(1074);
    lemma_stamp_parts(zero);
    assert(stamp_parts(zero) == (0nat, 0nat, 0nat)) by {
        vstd::arithmetic::div_mod::lemma_small_mod(0, (60 * binary64::one()) as nat);
        vstd::arithmetic::div_mod::lemma_small_mod(0, (3600 * binary64::one()) as nat);
        vstd::arithmetic::div_mod::lemma_basic_div(0, (60 * binary64::one()) as int);
        vstd::arithmetic::div_mod::lemma_basic_div(0, (3600 * binary64::one()) as int);
        vstd::arithmetic::div_mod::lemma_small_mod(0, binary64::one());
        vstd::arithmetic::div_mod::lemma_basic_div(0, binary64::one() as int);
        assert(0 * 100 == 0);
    }
    reveal_strlit(":");
    reveal_strlit(".");
    reveal_strlit("00:00:00.00");
    reveal_with_fuel(text::digits, 2);
    reveal_with_fuel(text::padded_digits, 3);
    assert(text::padded_digits(0, 2) =~= seq!['0', '0']);
    assert(spec_hhmmss(zero) =~= "00:00:00.00"@);
}

/// A time without end is shown with the most hours that there are and with
/// seconds that are not a number.
pub proof fn law_endless_time_stamp(secs: Binary64)
    requires
        secs.is_infinite(),
        !secs.negative(),
    ensures
        spec_hhmmss(secs) == text::digits(u64::MAX as nat) + ":00:00NaN"@,
{
    reveal(spec_hhmmss);
    let (hour, minute) = (Binary64 { bits: ieee::HOUR }, Binary64 { bits: ieee::MINUTE });
    ieee::law_constants();
    ieee::law_special_values(secs, hour);
    let endless = Binary64 { bits: ieee::INFINITY };
    assert(secs.spec_positive()) by {
        binary64::lemma_magnitude_zero(secs);
    }
    assert(secs.spec_quotient(hour) == endless);
    lemma_pow2_pos(1074);
    assert(endless.magnitude() / binary64::one() > u64::MAX) by {
        vstd::arithmetic::power2::lemma_pow2_adds(1074, 972);
        vstd::arithmetic::power2::lemma2_to64_rest();
        vstd::arithmetic::power2::lemma_pow2_strictly_increases(64, 972);
        assert(endless.exponent() == 2047 && endless.fraction() == 0);
        let (one, big) = (binary64::one(), vstd::arithmetic::power2::pow2(972));
        assert(0x10_0000_0000_0000 * (one * big) == one * (0x10_0000_0000_0000 * big))
            by (nonlinear_arith);
        vstd::arithmetic::div_mod::lemma_div_multiples_vanish(
            (0x10_0000_0000_0000 * big) as int,
            one as int,
        );
        assert(one * (0x10_0000_0000_0000 * big) == (0x10_0000_0000_0000 * big) * one)
            by (nonlinear_arith);
    }
    ieee::law_special_values(secs.spec_remainder(3600), minute);
    assert(secs.spec_remainder(3600).is_nan() && secs.spec_remainder(60).is_nan());
    let most = u64::MAX as nat;
    text::law_decimal_reads_back(most);
    assert(text::padded_digits(most, 2) == text::digits(most)) by {
        text::law_padded_reads_back(most, 2);
        if text::digits(most).len() < 2 {
            reveal_with_fuel(text::number, 3);
            let d = text::digits(most);
            assert(d.drop_last().len() == 0);
            assert(false);
        }
    }
    reveal_strlit(":");
    reveal_strlit("00NaN");
    reveal_strlit(":00:00NaN");
    reveal_with_fuel(text::digits, 2);
    reveal_with_fuel(text::padded_digits, 3);
    assert(text::padded_digits(0, 2) =~= seq!['0', '0']);
    assert(spec_hhmmss(secs) =~= text::digits(most) + ":00:00NaN"@);
}

} // verus!
