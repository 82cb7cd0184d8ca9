use vhs_gui::app::{
    about_rows, caption, format_time, job_summary, on_exit, path_hint, path_mark, App, BuildInfo, Caption, Central, ExitPlan, FrameStep,
    JobProgress, RailButton, Toolbar, ViewMode, NO_MEDIA, SAVE_DELAY,
};
use vhs_gui::binary64::Binary64;
use vhs_gui::config::{Config, EnvVars, PersistedPaths};
use vhs_gui::path::FilePath;

fn num(x: f64) -> Binary64 {
    Binary64::from_bits(x.to_bits())
}

fn env() -> EnvVars {
    EnvVars { home: Some("/home/ann".into()), user: Some("ann".into()), scripts_dir: None, work_root: None }
}

fn fresh() -> App {
    App::new(&PersistedPaths::default(), None, false, false, &env())
}

#[test]
fn the_window_starts_with_what_was_saved() {
    let saved = PersistedPaths { scripts_dir: Some(" /s ".into()), work_root: None };
    let app = App::new(&saved, Some(ViewMode::Upscale), true, false, &env());
    assert_eq!(app.cfg, Config::from_paths(&saved, &env()));
    assert_eq!(app.view_mode, ViewMode::Upscale);
    assert_eq!(app.paths_scripts_input, " /s ");
    assert_eq!(app.paths_work_root_input, "");
    assert_eq!(app.status, "");
    assert_eq!(app.save_due_at, None);
    assert!(!app.about_open && !app.paths_open && app.input_panel_open && !app.settings_panel_open);
    assert_eq!(fresh().view_mode, ViewMode::Monitor);
}

#[test]
fn a_save_waits_for_further_changes() {
    assert_eq!(SAVE_DELAY, 750_000_000);
    let mut app = fresh();
    assert_eq!(app.update(FrameStep::Render, false, u128::MAX), FrameStep::PollCapture);
    app.arm_save(1000);
    assert_eq!(app.update(FrameStep::Render, false, 1000 + SAVE_DELAY - 1), FrameStep::PollCapture);
    app.arm_save(5000);
    assert_eq!(app.update(FrameStep::Render, false, 5000 + SAVE_DELAY - 1), FrameStep::PollCapture);
    assert_eq!(app.update(FrameStep::Render, false, 5000 + SAVE_DELAY), FrameStep::Save);
    assert_eq!(app.save_due_at, None);
    assert_eq!(app.update(FrameStep::Render, false, 5000 + SAVE_DELAY), FrameStep::PollCapture);
}

/// The steps of one frame at `now`, with the given answer to every question.
fn frame(app: &mut App, answer: bool, now: u128) -> Vec<FrameStep> {
    let mut steps = vec![FrameStep::Render];
    while *steps.last().unwrap() != FrameStep::Done {
        let next = app.update(*steps.last().unwrap(), answer, now);
        steps.push(next);
    }
    steps
}

#[test]
fn a_frame_draws_what_is_open() {
    let mut app = fresh();
    assert_eq!(
        frame(&mut app, false, 0),
        [
            FrameStep::Render,
            FrameStep::PollCapture,
            FrameStep::PollUpscale,
            FrameStep::ToolbarSection,
            FrameStep::Toolbar,
            FrameStep::Rail,
            FrameStep::Central,
            FrameStep::Done,
        ]
    );
    app.about_open = true;
    app.paths_open = true;
    app.input_panel_open = true;
    app.settings_panel_open = true;
    assert_eq!(
        frame(&mut app, false, 0)[5..],
        [FrameStep::Rail, FrameStep::About, FrameStep::Paths, FrameStep::InputPanel, FrameStep::Central, FrameStep::Done]
    );
    app.view_mode = ViewMode::Upscale;
    app.about_open = false;
    assert_eq!(
        frame(&mut app, false, 0)[5..],
        [
            FrameStep::Rail,
            FrameStep::Paths,
            FrameStep::SettingsPanel,
            FrameStep::Library,
            FrameStep::Central,
            FrameStep::Done,
        ]
    );
    assert_eq!(app.save_due_at, None);
}

#[test]
fn answers_in_a_frame_have_consequences() {
    let mut app = fresh();
    app.view_mode = ViewMode::Upscale;
    app.settings_panel_open = true;
    app.save_due_at = Some(7);
    assert_eq!(
        frame(&mut app, true, 7),
        [
            FrameStep::Render,
            FrameStep::Save,
            FrameStep::PollCapture,
            FrameStep::RefreshLibrary,
            FrameStep::PollUpscale,
            FrameStep::ToolbarSection,
            FrameStep::Toolbar,
            FrameStep::Rail,
            FrameStep::SettingsPanel,
            FrameStep::Library,
            FrameStep::Central,
            FrameStep::Done,
        ]
    );
    assert_eq!(app.save_due_at, Some(7 + SAVE_DELAY));
    for (step, armed) in [
        (FrameStep::PollCapture, false),
        (FrameStep::ToolbarSection, false),
        (FrameStep::Toolbar, false),
        (FrameStep::Rail, true),
        (FrameStep::Paths, false),
        (FrameStep::InputPanel, true),
        (FrameStep::SettingsPanel, true),
        (FrameStep::Central, false),
    ] {
        let mut app = fresh();
        app.update(step, true, 1);
        assert_eq!(app.save_due_at.is_some(), armed, "{step:?}");
    }
}

#[test]
fn the_library_is_read_again_when_the_toolbar_asks() {
    let mut app = fresh();
    assert_eq!(app.update(FrameStep::ToolbarSection, true, 1), FrameStep::RefreshFromToolbar);
    assert_eq!(app.update(FrameStep::RefreshFromToolbar, false, 1), FrameStep::Toolbar);
    assert_eq!(app.update(FrameStep::Toolbar, false, 1), FrameStep::Rail);
    assert_eq!(app.update(FrameStep::ToolbarSection, false, 1), FrameStep::Toolbar);
    app.view_mode = ViewMode::Upscale;
    assert_eq!(app.update(FrameStep::ToolbarSection, true, 1), FrameStep::Toolbar);
}

#[test]
fn the_rail_switches_views_and_toggles_panels() {
    let mut app = fresh();
    assert!(app.rail_selected(RailButton::Monitor) && !app.rail_selected(RailButton::Upscale));
    assert!(!app.rail_clicked(RailButton::Monitor));
    assert!(app.rail_clicked(RailButton::Upscale));
    assert!(app.rail_selected(RailButton::Upscale) && !app.rail_selected(RailButton::Monitor));
    assert!(!app.rail_clicked(RailButton::Upscale));
    assert!(!app.rail_clicked(RailButton::Settings));
    assert!(app.settings_panel_open && !app.input_panel_open && app.rail_selected(RailButton::Settings));
    assert!(app.rail_clicked(RailButton::Monitor));
    assert!(!app.rail_selected(RailButton::Settings));
    assert!(!app.rail_clicked(RailButton::Settings));
    assert!(app.input_panel_open && app.settings_panel_open);
    for button in [RailButton::Settings, RailButton::Paths, RailButton::About] {
        let before = app.rail_selected(button);
        assert!(!app.rail_clicked(button));
        assert_eq!(app.rail_selected(button), !before);
        assert!(!app.rail_clicked(button));
        assert_eq!(app.rail_selected(button), before);
    }
}

#[test]
fn rail_buttons_are_labelled() {
    let all = [RailButton::Monitor, RailButton::Upscale, RailButton::Settings, RailButton::Paths, RailButton::About];
    let glyphs: Vec<&str> = all.iter().map(|b| b.glyph()).collect();
    assert_eq!(glyphs, ["⏺", "⬆", "⚙", "📁", "ℹ"]);
    let hints: Vec<&str> = all.iter().map(|b| b.hint(ViewMode::Monitor)).collect();
    assert_eq!(hints, ["Monitor", "Upscale", "Input Settings", "Working Directories", "About"]);
    assert_eq!(RailButton::Settings.hint(ViewMode::Upscale), "Upscale Settings");
}

#[test]
fn edited_directories_take_effect_at_once() {
    let mut app = fresh();
    app.paths_scripts_input = " /s ".into();
    app.paths_work_root_input = "\t".into();
    app.paths_shown(false, false, &env(), 9);
    assert_eq!(app.cfg, Config::without_overrides(&env()));
    assert_eq!(app.save_due_at, None);
    app.paths_shown(true, false, &env(), 9);
    let saved = PersistedPaths { scripts_dir: Some(" /s ".into()), work_root: None };
    assert_eq!(app.cfg, Config::from_paths(&saved, &env()));
    assert_eq!(app.save_due_at, Some(9 + SAVE_DELAY));
    assert_eq!(app.paths_scripts_input, " /s ");
    app.paths_shown(false, true, &env(), 10);
    assert_eq!(app.cfg, Config::without_overrides(&env()));
    assert_eq!(app.paths_scripts_input, "");
    assert_eq!(app.paths_work_root_input, "");
    assert_eq!(app.save_due_at, Some(10 + SAVE_DELAY));
}

#[test]
fn the_toolbar_follows_the_view() {
    let mut app = fresh();
    let job = JobProgress { completed_segments: 3, total_segments: 12, elapsed: "01:02".into() };
    assert_eq!(app.toolbar(false, true, None), Toolbar::Monitor { pause: Some("▶"), summary: None });
    assert_eq!(
        app.toolbar(false, false, Some(&job)),
        Toolbar::Monitor { pause: Some("⏸"), summary: Some("⬆ 3/12 segs  01:02".to_string()) }
    );
    assert_eq!(app.toolbar(true, false, None), Toolbar::Monitor { pause: None, summary: None });
    app.view_mode = ViewMode::Upscale;
    assert_eq!(app.toolbar(false, true, Some(&job)), Toolbar::Upscale);
    let starting = JobProgress { completed_segments: 0, total_segments: 0, elapsed: "00:01".into() };
    assert_eq!(job_summary(&starting), "⬆ 00:01");
}

#[test]
fn the_central_panel_shows_preview_or_player() {
    let mut app = fresh();
    let player = |show_capture_time: bool| Central::Player { show_capture_time };
    assert_eq!(app.central(true, true), player(true));
    assert_eq!(app.central(true, false), player(false));
    app.view_mode = ViewMode::Upscale;
    assert_eq!(app.central(true, true), Central::UpscalePreview);
    assert_eq!(app.central(false, true), player(true));
    assert_eq!(caption(num(65.9), num(3725.0), true), Caption::Times("1:05 / 1:02:05".to_string()));
    assert_eq!(caption(num(-3.0), num(0.5), true), Caption::Times("0:00 / 0:00".to_string()));
    assert_eq!(caption(num(0.0), num(0.0), true), Caption::NoMedia);
    assert_eq!(caption(num(0.0), num(f64::NAN), true), Caption::NoMedia);
    assert_eq!(caption(num(0.0), num(-0.0), false), Caption::Nothing);
    assert_eq!(NO_MEDIA, "No media\nSelect a file from the library or start monitoring");
}

#[test]
fn times_are_written_with_hours_where_there_are_any() {
    assert_eq!(format_time(num(0.0)), "0:00");
    assert_eq!(format_time(num(59.999)), "0:59");
    assert_eq!(format_time(num(600.0)), "10:00");
    assert_eq!(format_time(num(3599.9)), "59:59");
    assert_eq!(format_time(num(3600.0)), "1:00:00");
    assert_eq!(format_time(num(360_000.0)), "100:00:00");
    assert_eq!(format_time(num(f64::INFINITY)), format!("{}:{:02}:{:02}", u64::MAX / 3600, u64::MAX % 3600 / 60, u64::MAX % 60));
}

#[test]
fn directories_are_marked_and_hinted() {
    assert_eq!(path_mark(true), "✓");
    assert_eq!(path_mark(false), "⚠ not found");
    assert_eq!(path_hint(&FilePath::new("/home/ann/é")), "/home/ann/é");
    assert_eq!(path_hint(&FilePath::from_bytes(b"/home/\xffann".to_vec())), "/home/\u{fffd}ann");
}

#[test]
fn nothing_is_left_running() {
    for job in [true, false] {
        for capture in [true, false] {
            assert_eq!(on_exit(job, capture), ExitPlan { cancel_job: job, stop_capture: capture });
        }
    }
}

#[test]
fn the_build_is_described() {
    let build = BuildInfo {
        version: "0.3.0".into(),
        branch: "main".into(),
        hash: "0123abcd".into(),
        dirty: "-dirty".into(),
        debug: true,
    };
    let rows = about_rows(&build, Some("/usr/bin/vhs-gui"));
    let row = |a: &'static str, b: &str| (a, b.to_string());
    assert_eq!(
        rows,
        vec![
            row("Version:", "0.3.0"),
            row("Commit:", "main@0123abcd-dirty"),
            row("Build:", "debug"),
            row("Running from:", "/usr/bin/vhs-gui"),
        ]
    );
    let rows = about_rows(&BuildInfo { debug: false, ..build }, None);
    assert_eq!(rows[2], row("Build:", "release"));
    assert_eq!(rows[3], row("Running from:", "unknown"));
}
