use vhs_gui::command::CommandLine;
use vhs_gui::config::{Config, EnvVars};
use vhs_gui::path::FilePath;
use vhs_gui::vs_ops::{
    build_ffmpeg, find_in_path, first_runnable, launch, output_path, preflight, probe_has_audio, question, Finding, Preflight, PreflightError, Progress,
    Question, Resolved, ToolEnv, VsOp,
};

const OPS: [VsOp; 5] = [VsOp::Qtgmc, VsOp::Ivtc, VsOp::IvtcDecombed, VsOp::FieldAlign, VsOp::Vdecimate];

fn config() -> Config {
    Config::without_overrides(&EnvVars { home: Some("/home/ann".into()), user: None, scripts_dir: None, work_root: None })
}

fn tools() -> ToolEnv {
    ToolEnv { home: Some("/home/ann".into()), path: Some("/usr/local/bin:/usr/bin".into()), pythonpath: None }
}

fn strings(list: &[Vec<u8>]) -> Vec<String> {
    list.iter().map(|a| String::from_utf8(a.clone()).unwrap()).collect()
}

fn resolved(has_audio: bool) -> Resolved<FilePath> {
    Resolved {
        vspipe: FilePath::new("/usr/bin/vspipe"),
        ffmpeg: FilePath::new("/usr/bin/ffmpeg"),
        output: FilePath::new("/v/t_VD.mkv"),
        has_audio,
    }
}

#[test]
fn output_path_suffixes() {
    let input = FilePath::new("/videos/stabilized/seg001_STABLE.mkv");
    assert_eq!(output_path(VsOp::Qtgmc, &input), FilePath::new("/videos/stabilized/seg001_STABLE_QTGMC.mkv"));
    assert_eq!(output_path(VsOp::Ivtc, &input), FilePath::new("/videos/stabilized/seg001_STABLE_IVTC.mkv"));
    assert_eq!(output_path(VsOp::IvtcDecombed, &input), FilePath::new("/videos/stabilized/seg001_STABLE_IVTC_DECOMBED.mkv"));
    assert_eq!(output_path(VsOp::FieldAlign, &input), FilePath::new("/videos/stabilized/seg001_STABLE_ALIGNED.mkv"));
    assert_eq!(output_path(VsOp::Vdecimate, &input), FilePath::new("/videos/stabilized/seg001_STABLE_VD.mkv"));
}

#[test]
fn outputs_differ_from_the_input_and_from_each_other() {
    for s in ["/v/t.mkv", "t.mkv", "/v/t", "/v/.mkv", "/v/t.avi", "/", "", "..", "/v/t_VD.mkv"] {
        let input = FilePath::new(s);
        for a in OPS {
            let out = output_path(a, &input);
            assert_ne!(out, input);
            assert_eq!(out.file_name().unwrap().ends_with(b"_VD.mkv"), a == VsOp::Vdecimate);
            for b in OPS {
                assert_eq!(out == output_path(b, &input), a == b);
            }
        }
    }
    assert_eq!(output_path(VsOp::Ivtc, &FilePath::new("/v/t.avi")), FilePath::new("/v/t.avi_IVTC.mkv"));
    let raw = |bytes: &[u8]| FilePath::from_bytes(bytes.to_vec());
    assert_eq!(output_path(VsOp::Ivtc, &raw(b"/v/\xff.mkv")), raw(b"/v/\xff_IVTC.mkv"));
    assert_eq!(output_path(VsOp::Qtgmc, &raw(b"/v/a.\xff")), raw(b"/v/a.\xff_QTGMC.mkv"));
    assert_eq!(output_path(VsOp::Qtgmc, &FilePath::new("/v/..")), FilePath::new("/v/out_QTGMC.mkv"));
    assert_ne!(output_path(VsOp::Ivtc, &raw(b"/v/\xfe.mkv")), output_path(VsOp::Ivtc, &raw(b"/v/\xff.mkv")));
}

#[test]
fn no_two_runs_write_to_one_file() {
    let inputs = ["/v/t.mkv", "/v/t_VD.mkv", "/v/t_IVTC.mkv", "/v/t_IVTC_DECOMBED.mkv", "/w/t.mkv", "t.mkv", "/v/.mkv"];
    for a in OPS {
        for b in OPS {
            for x in inputs {
                for y in inputs {
                    let same = output_path(a, &FilePath::new(x)) == output_path(b, &FilePath::new(y));
                    assert_eq!(same, a == b && x == y, "{a:?} {x} {b:?} {y}");
                }
            }
        }
    }
}

#[test]
fn vs_env_defaults_match_bash() {
    let qtgmc: Vec<_> = VsOp::Qtgmc.vs_env_defaults();
    assert_eq!(
        qtgmc,
        vec![("VS_TFF", "1".to_string()), ("VS_FPSDIV", "2".to_string()), ("VS_PRESET", "Slower".to_string())]
    );
    assert_eq!(VsOp::Ivtc.vs_env_defaults(), vec![("VS_TFF", "1".to_string())]);
    assert_eq!(
        VsOp::IvtcDecombed.vs_env_defaults(),
        vec![("VS_TFF", "1".to_string()), ("VS_DECOMB_PRESET", "Fast".to_string())]
    );
    assert_eq!(
        VsOp::FieldAlign.vs_env_defaults(),
        vec![
            ("VS_TFF", "1".to_string()),
            ("VS_FIELD_SHIFT", "1.0".to_string()),
            ("VS_SHIFT_FIELD", "bottom".to_string()),
        ]
    );
    assert!(VsOp::Vdecimate.vs_env_defaults().is_empty());
}

#[test]
fn only_vdecimate_needs_audio_probe() {
    assert!(VsOp::Vdecimate.needs_audio_probe());
    assert!(!VsOp::Qtgmc.needs_audio_probe());
    assert!(!VsOp::Ivtc.needs_audio_probe());
    assert!(!VsOp::IvtcDecombed.needs_audio_probe());
    assert!(!VsOp::FieldAlign.needs_audio_probe());
}

#[test]
fn operations_are_named_in_labels() {
    let verbs: Vec<&str> = OPS.iter().map(|op| op.label_verb()).collect();
    assert_eq!(verbs, ["QTGMC", "IVTC", "IVTC+Decomb", "Field Align", "VDecimate"]);
}

#[test]
fn tools_are_searched_in_order() {
    let list = find_in_path("vspipe", &tools());
    assert_eq!(
        list,
        vec![
            FilePath::new("/home/ann/bin/vspipe"),
            FilePath::new("/usr/local/bin/vspipe"),
            FilePath::new("/usr/bin/vspipe"),
        ]
    );
    let bare = ToolEnv { home: None, path: Some(String::new()), pythonpath: None };
    assert_eq!(find_in_path("vspipe", &bare), vec![FilePath::new("/bin/vspipe"), FilePath::new("vspipe")]);
    let none = ToolEnv { home: Some("/h".into()), path: None, pythonpath: None };
    assert!(find_in_path("vspipe", &none).is_empty());
}

#[test]
fn the_first_place_that_runs_is_taken() {
    let places = || vec![FilePath::new("/a"), FilePath::new("/b"), FilePath::new("/c")];
    assert_eq!(first_runnable(places(), &[false, true, true]), Some(FilePath::new("/b")));
    assert_eq!(first_runnable(places(), &[true, false, true]), Some(FilePath::new("/a")));
    assert_eq!(first_runnable(places(), &[false, false, true]), Some(FilePath::new("/c")));
    assert_eq!(first_runnable(places(), &[false, false, false]), None);
    assert_eq!(first_runnable(Vec::new(), &[]), None);
}

/// Answers the questions of preflight from the given facts, and counts them.
fn run(op: VsOp, input_ok: bool, script_ok: bool, vspipe: Option<&str>, ffmpeg_ok: bool, audio: &[u8]) -> (Progress<FilePath>, u32) {
    let (input, cfg, env) = (FilePath::new("/v/t.mkv"), config(), tools());
    let mut stage: Preflight<FilePath> = Preflight::Input;
    let mut asked = 0;
    loop {
        asked += 1;
        let finding = match question(&stage, op, &input, &cfg, &env) {
            Question::IsFile(p) if p == input => Finding::Holds(input_ok),
            Question::IsFile(p) => {
                assert_eq!(p, cfg.tools_dir().join(op.vpy_filename()));
                Finding::Holds(script_ok)
            }
            Question::WhichRun(list) => {
                assert_eq!(list, find_in_path("vspipe", &env));
                let found = vspipe.map(FilePath::new);
                Finding::Runs(list.iter().map(|p| Some(p) == found.as_ref()).collect())
            }
            Question::IsRunnable(p) => {
                assert_eq!(p, FilePath::new("/usr/bin/ffmpeg"));
                Finding::Holds(ffmpeg_ok)
            }
            Question::Lists(cmd) => {
                assert_eq!(cmd.program, FilePath::new("/usr/bin/ffprobe"));
                assert_eq!(
                    strings(&cmd.args),
                    ["-v", "error", "-select_streams", "a:0", "-show_entries", "stream=index", "-of", "csv=p=0", "/v/t.mkv"]
                );
                Finding::Holds(probe_has_audio(Some(audio)))
            }
        };
        match preflight(stage, finding, op, &input, &cfg, &env) {
            Progress::Next(next) => stage = next,
            done => return (done, asked),
        }
    }
}

fn failure(done: Progress<FilePath>) -> String {
    match done {
        Progress::Failed(e) => e.message(),
        other => panic!("{other:?}"),
    }
}

#[test]
fn preflight_reports_the_first_thing_missing() {
    let op = VsOp::FieldAlign;
    assert_eq!(failure(run(op, false, false, None, false, b"").0), "input not found: /v/t.mkv");
    assert_eq!(
        failure(run(op, true, false, None, false, b"").0),
        "field_align.vpy not found: /home/ann/Videos/vhs-cli/vhs-env/tools/field_align.vpy"
    );
    assert_eq!(failure(run(op, true, true, None, false, b"").0), "vspipe not found in PATH");
    assert_eq!(failure(run(op, true, true, Some("/usr/local/bin/vspipe"), false, b"").0), "ffmpeg not executable: /usr/bin/ffmpeg");
}

#[test]
fn preflight_resolves_when_nothing_is_missing() {
    for op in OPS {
        for audio in [&b"1\n"[..], b" \n"] {
            let (done, asked) = run(op, true, true, Some("/usr/local/bin/vspipe"), true, audio);
            assert_eq!(asked, if op == VsOp::Vdecimate { 5 } else { 4 });
            assert_eq!(
                done,
                Progress::Ready(Resolved {
                    vspipe: FilePath::new("/usr/local/bin/vspipe"),
                    ffmpeg: FilePath::new("/usr/bin/ffmpeg"),
                    output: output_path(op, &FilePath::new("/v/t.mkv")),
                    has_audio: op != VsOp::Vdecimate || audio == b"1\n",
                })
            );
        }
    }
}

#[test]
fn audio_is_told_from_the_listing() {
    assert!(probe_has_audio(Some(b"1\n")));
    assert!(probe_has_audio(Some(b"\xff")));
    assert!(!probe_has_audio(Some(b"")));
    assert!(!probe_has_audio(Some(" \r\n\u{a0}".as_bytes())));
    assert!(!probe_has_audio(None));
}

#[test]
fn ill_formed_paths_are_shown_with_replacements() {
    let error = PreflightError::InputNotFound(FilePath::from_bytes(b"/v/\xff\xc3\xa9.mkv".to_vec()));
    assert_eq!(error.message(), "input not found: /v/\u{fffd}é.mkv");
    assert_eq!(error.message_showing("here"), "input not found: here");
}

fn environment(cmd: &CommandLine) -> Vec<(String, String)> {
    cmd.envs
        .iter()
        .map(|(k, v)| (String::from_utf8(k.clone()).unwrap(), String::from_utf8(v.clone()).unwrap()))
        .collect()
}

#[test]
fn a_pipe_runs_the_script_into_the_encoder() {
    let (input, cfg) = (FilePath::new("/v/t.mkv"), config());
    let job = launch(VsOp::Qtgmc, &input, &cfg, "QTGMC t".to_string(), &resolved(true), &tools());
    assert_eq!(job.label, "QTGMC t");
    assert_eq!(job.input, input);
    assert_eq!(job.log_dir, FilePath::new("/home/ann/Videos/logs"));
    assert_eq!(job.producer.program, FilePath::new("/usr/bin/vspipe"));
    assert_eq!(strings(&job.producer.args), ["-c", "y4m", "/home/ann/Videos/vhs-cli/vhs-env/tools/qtgmc.vpy", "-"]);
    let pair = |k: &str, v: &str| (k.to_string(), v.to_string());
    assert_eq!(
        environment(&job.producer),
        [
            pair("VS_INPUT", "/v/t.mkv"),
            pair("VS_TFF", "1"),
            pair("VS_FPSDIV", "2"),
            pair("VS_PRESET", "Slower"),
            pair("PYTHONPATH", "/home/ann/.local/share/vsrepo/py"),
        ]
    );
    assert_eq!(job.consumer, build_ffmpeg(&input, &resolved(true)));
    assert_eq!(
        strings(&job.consumer.args).join(" "),
        "-hide_banner -nostdin -y -thread_queue_size 1024 -f yuv4mpegpipe -i - -thread_queue_size 1024 -i /v/t.mkv \
         -map 0:v:0 -map 1:a:0 -c:v ffv1 -level 3 -pix_fmt yuv422p -c:a copy -shortest /v/t_VD.mkv"
    );
    assert_eq!(
        strings(&build_ffmpeg(&input, &resolved(false)).args).join(" "),
        "-hide_banner -nostdin -y -thread_queue_size 1024 -f yuv4mpegpipe -i - -c:v ffv1 -level 3 -pix_fmt yuv422p /v/t_VD.mkv"
    );
}

#[test]
fn an_existing_python_path_is_kept_behind() {
    let env = ToolEnv { home: None, path: None, pythonpath: Some("/py".into()) };
    let job = launch(VsOp::Vdecimate, &FilePath::new("t.mkv"), &config(), String::new(), &resolved(true), &env);
    assert_eq!(environment(&job.producer)[1], ("PYTHONPATH".to_string(), "/.local/share/vsrepo/py:/py".to_string()));
}
