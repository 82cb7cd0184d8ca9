use vhs_gui::binary64::Binary64;
use vhs_gui::config::{Config, EnvVars};
use vhs_gui::fix_sync::{
    build_atempo_chain, compute_tempo, drift_pct, ffprobe_field, field_in, field_printed, is_negligible, launch, parse_hms,
    parse_time_base, stream_duration_secs, task, Event, FixSyncError, Outcome, Probe, Search, Stage, Task, DRIFT_THRESHOLD_PCT,
};
use vhs_gui::ieee::{HOUR, HUNDRED, MINUTE, UNITY};
use vhs_gui::job::SingleJob;
use vhs_gui::path::FilePath;

fn num(x: f64) -> Binary64 {
    Binary64::from_bits(x.to_bits())
}

fn strings(list: &[Vec<u8>]) -> Vec<String> {
    list.iter().map(|a| String::from_utf8(a.clone()).unwrap()).collect()
}

fn value(x: Binary64) -> f64 {
    f64::from_bits(x.bits)
}

/// The pieces as numbers, if all of them are.
fn numbers(pieces: Vec<String>) -> Option<Vec<Binary64>> {
    pieces.iter().map(|p| p.parse::<f64>().ok().map(num)).collect()
}

/// The seconds that a clock text stands for.
fn clock_seconds(s: &str) -> Option<f64> {
    match stream_duration_secs(Probe::Tag, &parse_hms(s).and_then(numbers)) {
        Search::Found(secs) => Some(value(secs)),
        _ => None,
    }
}

#[test]
fn hms_parses_and_rejects_na() {
    assert_eq!(clock_seconds("00:01:30.500"), Some(90.5));
    assert_eq!(clock_seconds("01:00:00"), Some(3600.0));
    assert_eq!(clock_seconds("N/A"), None);
    assert_eq!(parse_hms("N/A"), None);
    assert_eq!(parse_hms("1:2"), None);
    assert_eq!(parse_hms("1:2:3:4"), Some(vec!["1".to_string(), "2".to_string(), "3:4".to_string()]));
}

/// The time base, if the search takes it as usable.
fn usable_time_base(tb: &str) -> Option<(f64, f64)> {
    let n = numbers(parse_time_base(tb)?)?;
    let probe = Probe::TimeBase { ticks: num(1.0) };
    match stream_duration_secs(probe, &Some(n.clone())) {
        Search::Found(_) => Some((value(n[0]), value(n[1]))),
        _ => None,
    }
}

#[test]
fn time_base_parses() {
    assert_eq!(usable_time_base("1/1000"), Some((1.0, 1000.0)));
    assert_eq!(usable_time_base("1/0"), None);
    assert_eq!(usable_time_base("1/-0.0"), None);
    assert_eq!(parse_time_base("1000"), None);
}

fn tempo_of(v_dur: f64, a_dur: f64) -> f64 {
    value(compute_tempo(num(v_dur), num(a_dur)))
}

#[test]
fn tempo_matches_bash_formula() {
    assert_eq!(tempo_of(100.0, 100.0), 1.0);
    assert_eq!(tempo_of(100.0, 101.0), 1.01);
    assert_eq!(tempo_of(0.0, 50.0), 1.0);
    assert_eq!(tempo_of(-5.0, 50.0), 1.0);
    assert!(tempo_of(f64::NAN, 50.0).is_nan());
}

#[test]
fn drift_pct_matches_bash_formula() {
    let drift = |tempo: f64| value(drift_pct(num(tempo)));
    assert!((drift(1.01) - 1.0).abs() < 1e-9);
    assert!((drift(0.99) - 1.0).abs() < 1e-9);
    assert_eq!(drift(1.0), 0.0);
}

#[test]
fn constants_are_the_doubles_they_name() {
    assert_eq!(DRIFT_THRESHOLD_PCT, 0.001f64.to_bits());
    assert_eq!(UNITY, 1.0f64.to_bits());
    assert_eq!(MINUTE, 60.0f64.to_bits());
    assert_eq!(HUNDRED, 100.0f64.to_bits());
    assert_eq!(HOUR, 3600.0f64.to_bits());
}

#[test]
fn drift_below_the_threshold_is_negligible() {
    for tempo in [1.0, 1.000009, 0.999991, 1.0000099999, 1.00001, 1.0000100001, 0.99999, 0.99998, 2.0, 0.0, -1.0, f64::NAN] {
        assert_eq!(is_negligible(num(tempo)), (tempo - 1.0).abs() * 100.0 < 0.001, "{tempo}");
    }
    assert!(is_negligible(num(1.0)));
    assert!(!is_negligible(num(1.01)));
}

#[test]
fn atempo_chain_within_range_is_single_factor() {
    assert_eq!(build_atempo_chain(num(1.25)), "atempo=1.25000000");
    assert_eq!(build_atempo_chain(num(0.75)), "atempo=0.75000000");
}

#[test]
fn atempo_chain_above_two_splits() {
    assert_eq!(build_atempo_chain(num(3.0)), "atempo=2.0,atempo=1.50000000");
    assert_eq!(build_atempo_chain(num(5.0)), "atempo=2.0,atempo=2.0,atempo=1.25000000");
}

#[test]
fn atempo_chain_below_half_splits() {
    assert_eq!(build_atempo_chain(num(0.2)), "atempo=0.5,atempo=0.5,atempo=0.80000000");
}

#[test]
fn atempo_chain_non_positive_is_identity() {
    assert_eq!(build_atempo_chain(num(0.0)), "atempo=1.0");
    assert_eq!(build_atempo_chain(num(-1.0)), "atempo=1.0");
    assert_eq!(build_atempo_chain(num(f64::NEG_INFINITY)), "atempo=1.0");
}

/// The chain, built with floating-point arithmetic.
fn chain_of(tempo: f64) -> String {
    let mut t = tempo;
    let mut parts = Vec::new();
    while t > 2.0 {
        parts.push("atempo=2.0".to_string());
        t /= 2.0;
    }
    while t < 0.5 {
        parts.push("atempo=0.5".to_string());
        t /= 0.5;
    }
    parts.push(format!("atempo={t:.8}"));
    parts.join(",")
}

#[test]
fn atempo_chain_agrees_with_floating_point() {
    let samples = [
        1.0, 1.0 + 1.0 / 512.0, 1.0 + 3.0 / 512.0, 0.5 + 1.0 / 1024.0, 1.999999995, 1.9999999949, 2.0, 2.0000000000000004, 0.5,
        0.49999999999999994, 0.1, 1e-9, 3.3e7, 1e300, f64::MAX, f64::MIN_POSITIVE, 5e-324, 2.2e-310, f64::NAN, 0.99998, 1.000013,
    ];
    for t in samples {
        assert_eq!(build_atempo_chain(num(t)), chain_of(t), "{t}");
    }
}

#[test]
fn factors_lie_in_range_and_multiply_to_the_tempo() {
    for t in [0.07, 0.3, 0.49999999999999994, 0.5, 0.9, 1.0, 1.0000000049, 1.7, 1.999999999, 2.0, 2.0000000000000004, 2.5, 9.0, 100.0] {
        let factors: Vec<f64> =
            build_atempo_chain(num(t)).split(',').map(|f| f.strip_prefix("atempo=").unwrap().parse().unwrap()).collect();
        assert!(factors.iter().all(|f| (0.5..=2.0).contains(f)));
        assert!((factors.iter().product::<f64>() / t - 1.0).abs() < 1.0001e-8, "{t}");
    }
}

#[test]
fn probes_ask_for_one_field() {
    let input = FilePath::new("/v/t.mkv");
    let cmd = ffprobe_field(&input, "v:0", "stream=duration");
    assert_eq!(cmd.program, FilePath::new("/usr/bin/ffprobe"));
    assert_eq!(
        strings(&cmd.args),
        ["-v", "error", "-select_streams", "v:0", "-show_entries", "stream=duration", "-of", "default=nk=1:nw=1", "/v/t.mkv"]
    );
    let cmd = Probe::Format.query(&input, "v:0");
    assert_eq!(strings(&cmd.args), ["-v", "error", "-show_entries", "format=duration", "-of", "default=nk=1:nw=1", "/v/t.mkv"]);
    let entries: Vec<String> = [Probe::Duration, Probe::Tag, Probe::Ticks, Probe::TimeBase { ticks: num(1.0) }]
        .iter()
        .map(|p| strings(&p.query(&input, "a:0").args)[5].clone())
        .collect();
    assert_eq!(entries, ["stream=duration", "stream_tags=DURATION", "stream=duration_ts", "stream=time_base"]);
}

#[test]
fn a_field_is_the_first_line_trimmed() {
    assert_eq!(field_in(" 12.5 \r\nnoise"), Some("12.5".to_string()));
    assert_eq!(field_in("\n12.5"), None);
    assert_eq!(field_in(""), None);
    assert_eq!(field_printed(Some(b"N/A\n")), Some("N/A".to_string()));
    assert_eq!(field_printed(Some(b"1\xff2\n")), Some("1\u{fffd}2".to_string()));
    assert_eq!(field_printed(None), None);
}

/// Searches a duration in the given replies, and counts the probes.
fn search(replies: [&str; 5]) -> (Search, u32) {
    let mut probe = Probe::Duration;
    let mut asked = 0;
    loop {
        asked += 1;
        let reply = match probe {
            Probe::Duration => replies[0],
            Probe::Tag => replies[1],
            Probe::Ticks => replies[2],
            Probe::TimeBase { .. } => replies[3],
            Probe::Format => replies[4],
        };
        let found = field_in(reply).and_then(|field| numbers(probe.pieces(&field)?));
        match stream_duration_secs(probe, &found) {
            Search::Next(next) => probe = next,
            done => return (done, asked),
        }
    }
}

#[test]
fn durations_fall_back_from_source_to_source() {
    let seconds = |x: f64| Search::Found(num(x));
    assert_eq!(search(["12.5", "00:00:01", "9", "1/3", "7"]), (seconds(12.5), 1));
    assert_eq!(search(["N/A", "00:01:30.500", "9", "1/3", "7"]), (seconds(90.5), 2));
    assert_eq!(search(["N/A", "01:02:03.1", "9", "1/3", "7"]), (seconds(1.0 * 3600.0 + 2.0 * 60.0 + 3.1), 2));
    assert_eq!(search(["N/A", "N/A", "9", "1/3", "7"]), (seconds(9.0 * 1.0 / 3.0), 4));
    assert_eq!(search(["N/A", "N/A", "90001", "1001/30000", "7"]), (seconds(90001.0 * 1001.0 / 30000.0), 4));
    assert_eq!(search(["N/A", "", "9", "1/0", "7"]), (seconds(7.0), 5));
    assert_eq!(search(["", "", "N/A", "1/3", "7"]), (seconds(7.0), 4));
    assert_eq!(search(["", "", "9", "x", "N/A"]), (Search::Unknown, 5));
}

fn config() -> Config {
    Config::without_overrides(&EnvVars { home: Some("/home/ann".into()), user: None, scripts_dir: None, work_root: None })
}

/// Launches with the given facts.
fn run(present: [bool; 3], v_dur: Option<f64>, a_dur: Option<f64>) -> Outcome<SingleJob> {
    let (input, output) = (FilePath::new("/v/t.mkv"), FilePath::new("/v/t_SYNC.mkv"));
    let mut stage = Stage::Ffprobe;
    loop {
        let event = match task(stage, &input) {
            Task::IsFile(p) if p == FilePath::new("/usr/bin/ffprobe") => Event::Present(present[0]),
            Task::IsFile(p) if p == FilePath::new("/usr/bin/ffmpeg") => Event::Present(present[1]),
            Task::IsFile(p) => {
                assert_eq!(p, input);
                Event::Present(present[2])
            }
            Task::DurationOf("v:0") => Event::Duration(v_dur.map(num)),
            Task::DurationOf(selector) => {
                assert_eq!(selector, "a:0");
                Event::Duration(a_dur.map(num))
            }
        };
        match launch(stage, event, &input, &output, &config(), "Fix Sync t") {
            Outcome::Next(next) => stage = next,
            done => return done,
        }
    }
}

#[test]
fn a_launch_reports_the_first_thing_missing() {
    let failed = |o: Outcome<SingleJob>| match o {
        Outcome::Failed(e) => (e, e.message(&FilePath::new("/v/t.mkv"))),
        other => panic!("{other:?}"),
    };
    assert_eq!(
        failed(run([false, false, false], None, None)),
        (FixSyncError::FfprobeNotFound, "ffprobe not found: /usr/bin/ffprobe".to_string())
    );
    assert_eq!(
        failed(run([true, false, false], None, None)),
        (FixSyncError::FfmpegNotFound, "ffmpeg not found: /usr/bin/ffmpeg".to_string())
    );
    assert_eq!(failed(run([true, true, false], None, None)), (FixSyncError::InputNotFound, "input not found: /v/t.mkv".to_string()));
    assert_eq!(
        failed(run([true; 3], None, None)),
        (FixSyncError::NoVideoDuration, "could not determine video duration".to_string())
    );
    assert_eq!(
        failed(run([true; 3], Some(100.0), None)),
        (FixSyncError::NoAudioDuration, "could not determine audio duration".to_string())
    );
    assert_eq!(
        FixSyncError::InputNotFound.message(&FilePath::from_bytes(b"/v/\xfe.mkv".to_vec())),
        "input not found: /v/\u{fffd}.mkv"
    );
}

#[test]
fn a_launch_starts_nothing_without_drift() {
    assert_eq!(run([true; 3], Some(100.0), Some(100.0)), Outcome::NothingToDo);
    assert_eq!(run([true; 3], Some(100.0), Some(100.0009)), Outcome::NothingToDo);
    assert_eq!(run([true; 3], Some(0.0), Some(50.0)), Outcome::NothingToDo);
}

#[test]
fn a_launch_corrects_drift() {
    let Outcome::Start(job) = run([true; 3], Some(100.0), Some(101.0)) else { panic!() };
    assert_eq!(job.label, "Fix Sync t");
    assert_eq!(job.input, FilePath::new("/v/t.mkv"));
    assert_eq!(job.log_dir, FilePath::new("/home/ann/Videos/logs"));
    assert_eq!(job.command.program, FilePath::new("/usr/bin/ffmpeg"));
    assert_eq!(
        strings(&job.command.args).join(" "),
        "-y -i /v/t.mkv -map 0:v:0 -map 0:a:0 -c:v copy -af atempo=1.01000000,aresample=async=1:first_pts=0 \
         -c:a aac -b:a 192k /v/t_SYNC.mkv"
    );
}
