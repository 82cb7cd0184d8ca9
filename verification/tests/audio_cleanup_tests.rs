use vhs_gui::audio_cleanup::{
    af_chain, extract_json_field, hhmmss, launch, loudnorm_step, measure, output_path, steps, task, threads, unique_work_dir,
    CleanupError, Outcome, Params, Stage, Task, Texts, HUM_HZ,
};
use vhs_gui::binary64::Binary64;
use vhs_gui::command::CommandLine;
use vhs_gui::config::{Config, EnvVars};
use vhs_gui::job::{Action, SequenceJob};
use vhs_gui::path::FilePath;
use vhs_gui::vs_ops::{output_path as decimated, VsOp};

fn strings(cmd: &CommandLine) -> String {
    let mut all = vec![String::from_utf8(cmd.program.as_bytes().to_vec()).unwrap()];
    all.extend(cmd.args.iter().map(|a| String::from_utf8(a.clone()).unwrap()));
    all.join(" ")
}

fn texts() -> Texts {
    Texts {
        nr_amount: "0.15".into(),
        target_i: "-16".into(),
        threads: "8".into(),
    }
}

#[test]
fn output_path_plain_edit_master() {
    let p = output_path(&FilePath::new("/x/captures/stabilized/EDIT_MASTER-Foo.mkv"));
    assert_eq!(p, FilePath::new("/x/captures/stabilized/EDIT_MASTER-Foo_ACLEAN.mkv"));
}

#[test]
fn output_path_vd_edit_master_keeps_vd_suffix_last() {
    let p = output_path(&FilePath::new("/x/captures/stabilized/EDIT_MASTER-Foo_VD.mkv"));
    assert_eq!(p, FilePath::new("/x/captures/stabilized/EDIT_MASTER-Foo_ACLEAN_VD.mkv"));
    assert!(String::from_utf8_lossy(p.as_bytes()).ends_with("_VD.mkv"));
}

#[test]
fn output_path_viewer_file() {
    let p = output_path(&FilePath::new("/x/captures/viewer/VHS Trailer.mkv"));
    assert_eq!(p, FilePath::new("/x/captures/viewer/VHS Trailer_ACLEAN.mkv"));
}

#[test]
fn outputs_are_sorted_where_their_inputs_are() {
    for name in ["EDIT_MASTER.mkv", "EDIT_MASTER_VD.mkv", "EDIT_VD.mkv", "EDIT.mkv", "x_VD.mkv", "_VD.mkv", ".mkv", "EDIT_MASTE.mkv"] {
        let input = FilePath::new("/v").join(name);
        let out = output_path(&input);
        let out_name = String::from_utf8(out.file_name().unwrap()).unwrap();
        assert_ne!(out, input);
        assert_eq!(out.parent(), input.parent());
        assert_eq!(out_name.ends_with("_VD.mkv"), name.ends_with("_VD.mkv"), "{name}");
        assert_eq!(out_name.starts_with("EDIT_MASTER"), name.starts_with("EDIT_MASTER"), "{name}");
    }
    assert_eq!(output_path(&FilePath::new("x")), FilePath::new("x_ACLEAN.mkv"));
    assert_eq!(output_path(&FilePath::new("/")), FilePath::new("./out_ACLEAN.mkv"));
    assert_eq!(output_path(&FilePath::from_bytes(b"/v/\xff_VD.mkv".to_vec())), FilePath::new("/v/out_ACLEAN.mkv"));
}

#[test]
fn cleaning_and_decimating_commute_in_the_name() {
    use_order("/v/t.mkv", "/v/t_ACLEAN_VD.mkv");
    use_order("EDIT_MASTER-é.mkv", "EDIT_MASTER-é_ACLEAN_VD.mkv");
}

/// Cleans and decimates `input` in both orders.
fn use_order(input: &str, expected: &str) {
    let input = FilePath::new(input);
    assert_eq!(output_path(&decimated(VsOp::Vdecimate, &input)), FilePath::new(expected));
    assert_eq!(decimated(VsOp::Vdecimate, &output_path(&input)), FilePath::new(expected));
}

#[test]
fn inputs_do_not_share_outputs() {
    let names = ["a.mkv", "a_VD.mkv", "a_ACLEAN.mkv", "a_ACLEAN_VD.mkv", "_VD.mkv", ".mkv", "é.mkv"];
    for x in names {
        for y in names {
            let same = output_path(&FilePath::new("/v").join(x)) == output_path(&FilePath::new("/v").join(y));
            assert_eq!(same, x == y, "{x} {y}");
            assert_ne!(output_path(&FilePath::new("/v").join(x)), output_path(&FilePath::new("/w").join(y)));
        }
    }
}

#[test]
fn hum_harmonics_match_bash_defaults() {
    assert_eq!(HUM_HZ, 60);
    assert_eq!(HUM_HZ * 2, 120);
    assert_eq!(HUM_HZ * 3, 180);
}

#[test]
fn defaults_match_bash_script_except_gentler_nr_amount() {
    let value = |x: Binary64| f64::from_bits(x.bits);
    assert_eq!(value(Params::default().nr_amount), 0.15);
    assert_eq!(value(Params::default().noise_start_secs), 0.0);
    assert_eq!(value(Params::default().noise_len_secs), 1.0);
    assert_eq!(value(Params::default().loudnorm_target_i), -16.0);
    assert!(Params::default().hum_enable);
}

#[test]
fn params_are_compared_by_value() {
    let base = Params::default();
    let with = |x: f64| Params { noise_start_secs: num(x), ..base };
    assert_eq!(base, with(0.0));
    assert_eq!(base, with(-0.0));
    assert_ne!(base, with(1.0));
    assert_ne!(with(f64::NAN), with(f64::NAN));
    assert_ne!(base, Params { hum_enable: false, ..base });
    assert_ne!(base, Params { noise_len_secs: num(2.0), ..base });
    assert_ne!(base, Params { nr_amount: num(0.25), ..base });
    assert_ne!(base, Params { loudnorm_target_i: num(-20.0), ..base });
}

const SUMMARY: &str = r#"[Parsed_loudnorm_0 @ 0x1]

{
	"input_i" : "-23.71",
	"input_tp" : "-4.35",
	"input_lra" : "6.00",
	"input_thresh" : "-34.02",
	"output_i" : "-16.01",
	"output_tp" : "-1.50",
	"output_lra" : "6.10",
	"output_thresh" : "-26.34",
	"normalization_type" : "dynamic",
	"target_offset" : "0.01"
}
"#;

#[test]
fn extract_json_field_parses_loudnorm_summary() {
    let text = SUMMARY;
    assert_eq!(extract_json_field(text, "input_i").as_deref(), Some("-23.71"));
    assert_eq!(extract_json_field(text, "input_tp").as_deref(), Some("-4.35"));
    assert_eq!(extract_json_field(text, "input_lra").as_deref(), Some("6.00"));
    assert_eq!(extract_json_field(text, "input_thresh").as_deref(), Some("-34.02"));
    assert_eq!(extract_json_field(text, "target_offset").as_deref(), Some("0.01"));
    assert_eq!(extract_json_field(text, "missing_key"), None);
}

#[test]
fn incomplete_fields_are_not_read() {
    assert_eq!(extract_json_field("\"k\"", "k"), None);
    assert_eq!(extract_json_field("\"k\" : ", "k"), None);
    assert_eq!(extract_json_field("\"k\" : \"v", "k"), None);
    assert_eq!(extract_json_field("é \"k\":\"ü\"", "k"), Some("ü".to_string()));
    assert_eq!(extract_json_field("\"k\" 1, \"l\" : \"v\"", "k"), Some("v".to_string()));
}

fn num(x: f64) -> Binary64 {
    Binary64::from_bits(x.to_bits())
}

#[test]
fn hhmmss_formats_for_ffmpeg_ss() {
    assert_eq!(hhmmss(num(0.0)), "00:00:00.00");
    assert_eq!(hhmmss(num(1.0)), "00:00:01.00");
    assert_eq!(hhmmss(num(90.5)), "00:01:30.50");
    assert_eq!(hhmmss(num(3661.25)), "01:01:01.25");
}

#[test]
fn noise_around_a_summary_does_not_matter() {
    let noisy = format!("size=N/A time=00:00:01 : \"x\"\n{SUMMARY}\n\"input_i\" : \"0\"");
    for key in ["input_i", "input_tp", "input_lra", "input_thresh", "target_offset"] {
        assert_eq!(extract_json_field(&noisy, key), extract_json_field(SUMMARY, key));
    }
}

/// The time stamp of `secs`, made with floating-point arithmetic.
fn stamp(secs: f64) -> String {
    let secs = if secs > 0.0 { secs } else { 0.0 };
    let h = (secs / 3600.0) as u64;
    let m = ((secs % 3600.0) / 60.0) as u64;
    let s = secs % 60.0;
    format!("{h:02}:{m:02}:{s:05.2}")
}

#[test]
fn time_stamps_agree_with_floating_point() {
    let mut samples = vec![
        0.0, -0.0, -5.0, 0.004, 0.005, 0.015, 0.125, 0.375, 9.995, 30.5, 59.994, 59.995, 59.999, 60.0, 3599.9999999999995, 3600.0,
        359999.99, 1e9, 1e15, 1e18, 1e19, 1e30, f64::MAX, 1e-300, 5e-324, f64::INFINITY, f64::NEG_INFINITY, f64::NAN,
    ];
    let mut state = 7u64;
    for _ in 0..2000 {
        state = state.wrapping_mul(6364136223846793005).wrapping_add(1442695040888963407);
        samples.push((state >> 30) as f64 / 4096.0);
        samples.push(f64::from_bits(state >> 1));
    }
    for secs in samples {
        assert_eq!(hhmmss(num(secs)), stamp(secs), "{secs:e}");
    }
}

#[test]
fn threads_follow_the_machine() {
    assert_eq!(threads(Some(16)), "16");
    assert_eq!(threads(None), "1");
}

#[test]
fn scratch_directories_differ() {
    let temp = FilePath::new("/tmp");
    assert_eq!(unique_work_dir(&temp, 12, 345), FilePath::new("/tmp/vhs-gui-audiocleanup-12-345"));
    assert_ne!(unique_work_dir(&temp, 12, 345), unique_work_dir(&temp, 1, 2345));
    assert_ne!(unique_work_dir(&temp, 12, 345), unique_work_dir(&temp, 123, 45));
}

const PCM: &str = "-vn -map 0:a:0 -af highpass=f=20,aresample=async=0:first_pts=0,asetpts=N/SR/TB \
                   -ac 2 -ar 48000 -c:a pcm_s16le -threads 8";

#[test]
fn a_cleanup_runs_its_steps_in_order() {
    let (input, output, work_dir) = (FilePath::new("/v/t.mkv"), FilePath::new("/v/o.mkv"), FilePath::new("/w"));
    assert_eq!(af_chain(), "highpass=f=20,aresample=async=0:first_pts=0,asetpts=N/SR/TB");
    for hum in [true, false] {
        let params = Params { hum_enable: hum, noise_start_secs: num(2.5), ..Params::default() };
        let list = steps(&input, &output, &work_dir, &params, &texts());
        let shown: Vec<(String, String)> = list
            .iter()
            .map(|s| {
                let what = match &s.action {
                    Action::Run(cmd) => strings(cmd),
                    Action::Normalize { input, output, target_i, threads } => format!("{input:?} {output:?} {target_i} {threads}"),
                };
                (s.title.to_string(), what)
            })
            .collect();
        let mut expected = vec![(
            "Extracting audio...".to_string(),
            format!("/usr/bin/ffmpeg -hide_banner -nostdin -y -fflags +genpts -i /v/t.mkv {PCM} /w/full.wav"),
        )];
        if hum {
            expected.push((
                "Notching hum...".to_string(),
                "/usr/bin/sox /w/full.wav /w/hum.wav bandreject 60 2q bandreject 120 2q bandreject 180 2q".to_string(),
            ));
        }
        let track = if hum { "hum" } else { "full" };
        expected.push((
            "Sampling noise profile...".to_string(),
            format!(
                "/usr/bin/ffmpeg -hide_banner -nostdin -y -fflags +genpts -ss 00:00:02.50 -t 00:00:01.00 -i /v/t.mkv {PCM} /w/sample.wav"
            ),
        ));
        expected.push(("Building noise profile...".to_string(), "/usr/bin/sox /w/sample.wav -n noiseprof /w/noise.prof".to_string()));
        expected.push((
            "Reducing broadband noise...".to_string(),
            format!("/usr/bin/sox /w/{track}.wav /w/clean.wav noisered /w/noise.prof 0.15"),
        ));
        expected.push((
            "Loudness normalizing...".to_string(),
            format!("{:?} {:?} -16 8", FilePath::new("/w/clean.wav"), FilePath::new("/w/norm.wav")),
        ));
        expected.push((
            "Remuxing...".to_string(),
            "/usr/bin/ffmpeg -hide_banner -nostdin -y -fflags +genpts -i /v/t.mkv -fflags +genpts -i /w/norm.wav \
             -map 0:v:0 -map 1:a:0 -c:v copy -c:a pcm_s16le -avoid_negative_ts make_zero -shortest /v/o.mkv"
                .to_string(),
        ));
        assert_eq!(shown, expected);
    }
}

#[test]
fn loudness_is_measured_and_corrected() {
    let (input, output) = (FilePath::new("/w/clean.wav"), FilePath::new("/w/norm.wav"));
    assert_eq!(
        strings(&measure(&input, "-16")),
        "/usr/bin/ffmpeg -hide_banner -nostdin -i /w/clean.wav -af loudnorm=I=-16:TP=-1.5:LRA=11:print_format=json -f null -"
    );
    let apply = loudnorm_step(&input, &output, "-16", "8", true, false, SUMMARY).unwrap();
    assert_eq!(
        strings(&apply),
        "/usr/bin/ffmpeg -hide_banner -nostdin -y -i /w/clean.wav -af \
         loudnorm=I=-16:TP=-1.5:LRA=11:measured_I=-23.71:measured_TP=-4.35:measured_LRA=6.00:\
         measured_thresh=-34.02:offset=0.01:linear=true:print_format=summary \
         -ar 48000 -c:a pcm_s16le -threads 8 /w/norm.wav"
    );
    assert_eq!(loudnorm_step(&input, &output, "-16", "8", false, false, SUMMARY), None);
    assert_eq!(loudnorm_step(&input, &output, "-16", "8", true, true, SUMMARY), None);
    assert_eq!(loudnorm_step(&input, &output, "-16", "8", true, false, "\"input_i\" : \"1\""), None);
}

/// Launches with the given facts; returns the directories that were asked for.
fn run(ffmpeg: bool, sox: bool, input_ok: bool) -> (Outcome<SequenceJob>, Vec<Option<FilePath>>) {
    let (input, output, work_dir) = (FilePath::new("/v/t.mkv"), FilePath::new("/o/t_ACLEAN.mkv"), FilePath::new("/tmp/w"));
    let cfg = Config::without_overrides(&EnvVars { home: Some("/home/ann".into()), user: None, scripts_dir: None, work_root: None });
    let mut stage = Stage::Ffmpeg;
    let mut made = Vec::new();
    loop {
        let holds = match task(stage, &input, &output, &work_dir) {
            Task::IsFile(p) if p == FilePath::new("/usr/bin/ffmpeg") => ffmpeg,
            Task::IsFile(p) if p == FilePath::new("/usr/bin/sox") => sox,
            Task::IsFile(p) => {
                assert_eq!(p, input);
                input_ok
            }
            Task::MakeDir(dir) => {
                made.push(dir);
                true
            }
        };
        match launch(stage, holds, &input, &output, &work_dir, &cfg, "Clean t", &Params::default(), &texts()) {
            Outcome::Next(next) => stage = next,
            done => return (done, made),
        }
    }
}

#[test]
fn a_cleanup_reports_the_first_thing_missing() {
    let input = FilePath::new("/v/t.mkv");
    for (facts, error, message) in [
        ((false, false, false), CleanupError::FfmpegNotFound, "ffmpeg not found: /usr/bin/ffmpeg"),
        (
            (true, false, false),
            CleanupError::SoxNotFound,
            "sox not found: /usr/bin/sox. Install with: sudo apt-get install sox",
        ),
        ((true, true, false), CleanupError::InputNotFound, "input not found: /v/t.mkv"),
    ] {
        let (done, made) = run(facts.0, facts.1, facts.2);
        assert_eq!(done, Outcome::Failed(error));
        assert_eq!(error.message(&input), message);
        assert!(made.is_empty());
    }
    assert_eq!(
        CleanupError::InputNotFound.message(&FilePath::from_bytes(b"/v/\x80".to_vec())),
        "input not found: /v/\u{fffd}"
    );
}

#[test]
fn a_cleanup_starts_once_its_directories_exist() {
    let (done, made) = run(true, true, true);
    assert_eq!(made, vec![Some(FilePath::new("/o")), Some(FilePath::new("/tmp/w"))]);
    let Outcome::Start(job) = done else { panic!() };
    assert_eq!(job.label, "Clean t");
    assert_eq!(job.input, FilePath::new("/v/t.mkv"));
    assert_eq!(job.work_dir, FilePath::new("/tmp/w"));
    assert_eq!(job.log_dir, FilePath::new("/home/ann/Videos/logs"));
    assert_eq!(
        job.steps,
        steps(
            &FilePath::new("/v/t.mkv"),
            &FilePath::new("/o/t_ACLEAN.mkv"),
            &FilePath::new("/tmp/w"),
            &Params::default(),
            &texts()
        )
    );
}
