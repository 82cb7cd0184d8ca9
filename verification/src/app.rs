//! What the main window shows and does. Drawing and the panels themselves are
//! the caller's: it performs one step of a frame after the other and reports
//! what came of it.
use crate::binary64;
use crate::binary64::Binary64;
use crate::config;
use crate::config::{Config, ConfigView, EnvVars, PersistedPaths};
use crate::encoding;
use crate::path::FilePath;
use crate::text;
use vstd::prelude::*;

verus! {

/// How long a save of the settings waits for further changes: 750 ms, in
/// nanoseconds.
pub const SAVE_DELAY: u128 = 750_000_000;

/// The two views of the main window.
#[derive(Clone, Copy, Debug, PartialEq, Eq, Structural)]
pub enum ViewMode {
    Monitor,
    Upscale,
}

/// The state of the main window.
#[derive(Debug, PartialEq, Eq)]
pub struct App {
    pub cfg: Config,
    pub view_mode: ViewMode,
    pub status: String,
    /// When a settings save is due, if one is, in nanoseconds.
    pub save_due_at: Option<u128>,
    pub about_open: bool,
    pub paths_open: bool,
    /// Whether the input settings are shown in the monitor view.
    pub input_panel_open: bool,
    /// Whether the upscale settings are shown in the upscale view.
    pub settings_panel_open: bool,
    /// The text fields of the Working Directories window. A blank one means
    /// that there is no override.
    pub paths_scripts_input: String,
    pub paths_work_root_input: String,
}

/// What the state of the main window says.
#[verifier::ext_equal]
pub struct AppView {
    pub cfg: ConfigView,
    pub view_mode: ViewMode,
    pub status: Seq<char>,
    pub save_due_at: Option<u128>,
    pub about_open: bool,
    pub paths_open: bool,
    pub input_panel_open: bool,
    pub settings_panel_open: bool,
    pub paths_scripts_input: Seq<char>,
    pub paths_work_root_input: Seq<char>,
}

impl View for App {
    type V = AppView;

    open spec fn view(&self) -> AppView {
        AppView {
            cfg: self.cfg@,
            view_mode: self.view_mode,
            status: self.status@,
            save_due_at: self.save_due_at,
            about_open: self.about_open,
            paths_open: self.paths_open,
            input_panel_open: self.input_panel_open,
            settings_panel_open: self.settings_panel_open,
            paths_scripts_input: self.paths_scripts_input@,
            paths_work_root_input: self.paths_work_root_input@,
        }
    }
}

/// The state at the start, for the saved override texts and the saved view.
pub open spec fn spec_new(
    scripts_dir: Option<Seq<char>>,
    work_root: Option<Seq<char>>,
    saved_view: Option<ViewMode>,
    input_panel_open: bool,
    settings_panel_open: bool,
    env: EnvVars,
) -> AppView {
    AppView {
        cfg: config::spec_from_paths(scripts_dir, work_root, env),
        view_mode: match saved_view {
            Some(view) => view,
            None => ViewMode::Monitor,
        },
        status: Seq::empty(),
        save_due_at: None,
        about_open: false,
        paths_open: false,
        input_panel_open,
        settings_panel_open,
        paths_scripts_input: text::or_empty(scripts_dir),
        paths_work_root_input: text::or_empty(work_root),
    }
}

/// The state once a save has been put off until `SAVE_DELAY` after `now`.
pub open spec fn spec_arm_save(app: AppView, now: u128) -> AppView {
    AppView { save_due_at: Some((now + SAVE_DELAY) as u128), ..app }
}

/// Whether a save is due at `now`.
pub open spec fn spec_save_due(app: AppView, now: u128) -> bool {
    app.save_due_at matches Some(due) && now >= due
}

/// The buttons of the rail on the left, from the top down.
#[derive(Clone, Copy, Debug, PartialEq, Eq, Structural)]
pub enum RailButton {
    Monitor,
    Upscale,
    /// The settings of the view that is shown.
    Settings,
    Paths,
    About,
}

impl RailButton {
    /// The button's icon.
    pub open spec fn spec_glyph(self) -> Seq<char> {
        match self {
            RailButton::Monitor => "⏺"@,
            RailButton::Upscale => "⬆"@,
            RailButton::Settings => "⚙"@,
            RailButton::Paths => "📁"@,
            RailButton::About => "ℹ"@,
        }
    }

    /// The button's icon.
    pub fn glyph(self) -> (r: &'static str)
        ensures
            r@ == self.spec_glyph(),
    {
        match self {
            RailButton::Monitor => "⏺",
            RailButton::Upscale => "⬆",
            RailButton::Settings => "⚙",
            RailButton::Paths => "📁",
            RailButton::About => "ℹ",
        }
    }

    /// What the button does, in the view `mode`.
    pub open spec fn spec_hint(self, mode: ViewMode) -> Seq<char> {
        match self {
            RailButton::Monitor => "Monitor"@,
            RailButton::Upscale => "Upscale"@,
            RailButton::Settings => match mode {
                ViewMode::Monitor => "Input Settings"@,
                ViewMode::Upscale => "Upscale Settings"@,
            },
            RailButton::Paths => "Working Directories"@,
            RailButton::About => "About"@,
        }
    }

    /// What the button does, in the view `mode`.
    pub fn hint(self, mode: ViewMode) -> (r: &'static str)
        ensures
            r@ == self.spec_hint(mode),
    {
        match self {
            RailButton::Monitor => "Monitor",
            RailButton::Upscale => "Upscale",
            RailButton::Settings => match mode {
                ViewMode::Monitor => "Input Settings",
                ViewMode::Upscale => "Upscale Settings",
            },
            RailButton::Paths => "Working Directories",
            RailButton::About => "About",
        }
    }
}

/// Whether a button of the rail is drawn as selected.
pub open spec fn spec_rail_selected(app: AppView, button: RailButton) -> bool {
    match button {
        RailButton::Monitor => app.view_mode == ViewMode::Monitor,
        RailButton::Upscale => app.view_mode == ViewMode::Upscale,
        RailButton::Settings => match app.view_mode {
            ViewMode::Monitor => app.input_panel_open,
            ViewMode::Upscale => app.settings_panel_open,
        },
        RailButton::Paths => app.paths_open,
        RailButton::About => app.about_open,
    }
}

/// The state after a click on a button of the rail.
pub open spec fn spec_rail_clicked(app: AppView, button: RailButton) -> AppView {
    match button {
        RailButton::Monitor => AppView { view_mode: ViewMode::Monitor, ..app },
        RailButton::Upscale => AppView { view_mode: ViewMode::Upscale, ..app },
        RailButton::Settings => match app.view_mode {
            ViewMode::Monitor => AppView { input_panel_open: !app.input_panel_open, ..app },
            ViewMode::Upscale => AppView { settings_panel_open: !app.settings_panel_open, ..app },
        },
        RailButton::Paths => AppView { paths_open: !app.paths_open, ..app },
        RailButton::About => AppView { about_open: !app.about_open, ..app },
    }
}

/// The state after the Working Directories window was shown with the given
/// texts in its fields. `changed` says that a field was edited, `reset` that
/// the button for both defaults was clicked.
pub open spec fn spec_paths_shown(
    app: AppView,
    changed: bool,
    reset: bool,
    env: EnvVars,
    now: u128,
) -> AppView {
    let scripts = if reset {
        Seq::empty()
    } else {
        app.paths_scripts_input
    };
    let work_root = if reset {
        Seq::empty()
    } else {
        app.paths_work_root_input
    };
    if changed || reset {
        spec_arm_save(
            AppView {
                cfg: ConfigView {
                    scripts_dir: config::override_or(
                        Some(scripts),
                        config::spec_default_scripts_dir(env),
                    ),
                    work_root: config::override_or(
                        Some(work_root),
                        config::spec_default_work_root(env),
                    ),
                    ..app.cfg
                },
                paths_scripts_input: scripts,
                paths_work_root_input: work_root,
                ..app
            },
            now,
        )
    } else {
        app
    }
}

/// How far a job in the background is.
#[derive(Debug, PartialEq, Eq)]
pub struct JobProgress {
    pub completed_segments: u64,
    pub total_segments: u64,
    /// How long the job has been running, as a text.
    pub elapsed: String,
}

/// The short form of a job's progress.
pub open spec fn spec_job_summary(job: JobProgress) -> Seq<char> {
    if job.total_segments > 0 {
        "⬆ "@ + text::digits(job.completed_segments as nat) + "/"@ + text::digits(
            job.total_segments as nat,
        ) + " segs  "@ + job.elapsed@
    } else {
        "⬆ "@ + job.elapsed@
    }
}

/// The short form of a job's progress.
pub fn job_summary(job: &JobProgress) -> (r: String)
    ensures
        r@ == spec_job_summary(*job),
{
    let mut out = "⬆ ".to_string();
    if job.total_segments > 0 {
        out.append(text::decimal(job.completed_segments as u128).as_str());
        out.append("/");
        out.append(text::decimal(job.total_segments as u128).as_str());
        out.append(" segs  ");
    }
    out.append(job.elapsed.as_str());
    out
}

/// What the toolbar holds besides the section of the view's own panel.
#[derive(Debug, PartialEq, Eq)]
pub enum Toolbar {
    Monitor {
        /// The icon of the pause button, if there is one.
        pause: Option<&'static str>,
        /// The progress of the job in the background, if there is one.
        summary: Option<String>,
    },
    Upscale,
}

/// The steps of a frame, in their order.
#[derive(Clone, Copy, Debug, PartialEq, Eq, Structural)]
pub enum FrameStep {
    /// Render the player's picture off screen, before anything is drawn.
    Render,
    /// Save the settings.
    Save,
    /// Poll the capture. Answer: whether the library has changed.
    PollCapture,
    /// Read the library again.
    RefreshLibrary,
    /// Poll the job in the background.
    PollUpscale,
    /// Draw the section of the toolbar that belongs to the view's own panel.
    /// Answer: whether the monitor's section says that the library has changed.
    ToolbarSection,
    /// Read the library again, as that section asks for.
    RefreshFromToolbar,
    /// Draw the rest of the toolbar.
    Toolbar,
    /// Draw the rail. Answer: whether the view has changed.
    Rail,
    /// Draw the About window.
    About,
    /// Draw the Working Directories window.
    Paths,
    /// Draw the input settings. Answer: whether one has changed.
    InputPanel,
    /// Draw the upscale settings. Answer: whether one has changed.
    SettingsPanel,
    /// Draw the library.
    Library,
    /// Draw the central panel.
    Central,
    /// The frame is complete.
    Done,
}

/// Whether the answer to a step calls for a save of the settings.
pub open spec fn asks_for_save(step: FrameStep, answer: bool) -> bool {
    answer && (step is Rail || step is InputPanel || step is SettingsPanel)
}

/// The first panel to draw beside the central one.
pub open spec fn spec_side_panel(app: AppView) -> FrameStep {
    match app.view_mode {
        ViewMode::Monitor => if app.input_panel_open {
            FrameStep::InputPanel
        } else {
            FrameStep::Central
        },
        ViewMode::Upscale => if app.settings_panel_open {
            FrameStep::SettingsPanel
        } else {
            FrameStep::Library
        },
    }
}

/// The step after `step`, where `due` says whether a save is due.
pub open spec fn spec_next_step(
    app: AppView,
    step: FrameStep,
    answer: bool,
    due: bool,
) -> FrameStep {
    match step {
        FrameStep::Render => if due {
            FrameStep::Save
        } else {
            FrameStep::PollCapture
        },
        FrameStep::Save => FrameStep::PollCapture,
        FrameStep::PollCapture => if answer {
            FrameStep::RefreshLibrary
        } else {
            FrameStep::PollUpscale
        },
        FrameStep::RefreshLibrary => FrameStep::PollUpscale,
        FrameStep::PollUpscale => FrameStep::ToolbarSection,
        FrameStep::ToolbarSection => if answer && app.view_mode is Monitor {
            FrameStep::RefreshFromToolbar
        } else {
            FrameStep::Toolbar
        },
        FrameStep::RefreshFromToolbar => FrameStep::Toolbar,
        FrameStep::Toolbar => FrameStep::Rail,
        FrameStep::Rail => if app.about_open {
            FrameStep::About
        } else if app.paths_open {
            FrameStep::Paths
        } else {
            spec_side_panel(app)
        },
        FrameStep::About => if app.paths_open {
            FrameStep::Paths
        } else {
            spec_side_panel(app)
        },
        FrameStep::Paths => spec_side_panel(app),
        FrameStep::InputPanel => FrameStep::Central,
        FrameStep::SettingsPanel => FrameStep::Library,
        FrameStep::Library => FrameStep::Central,
        FrameStep::Central => FrameStep::Done,
        FrameStep::Done => FrameStep::Done,
    }
}

/// The state after `step` was done at `now`.
pub open spec fn spec_after_step(
    app: AppView,
    step: FrameStep,
    answer: bool,
    now: u128,
) -> AppView {
    if step is Render && spec_save_due(app, now) {
        AppView { save_due_at: None, ..app }
    } else if asks_for_save(step, answer) {
        spec_arm_save(app, now)
    } else {
        app
    }
}

/// What the central panel shows.
#[derive(Debug, PartialEq, Eq)]
pub enum Central {
    /// The preview of the upscale that is running.
    UpscalePreview,
    /// The player, with the time of the capture on it if one is running, and
    /// a caption below it.
    Player { show_capture_time: bool },
}

/// What stands below the player's picture.
#[derive(Debug, PartialEq, Eq)]
pub enum Caption {
    /// This text.
    Times(String),
    /// That there is no media, with a hint what to do.
    NoMedia,
    Nothing,
}

/// What stands below the player's picture when there is no media.
pub const NO_MEDIA: &'static str = "No media\nSelect a file from the library or start monitoring";

/// The time text for `s` seconds: `h:mm:ss`, or `m:ss` below one hour.
pub open spec fn spec_time_text(s: nat) -> Seq<char> {
    let minutes = (s % 3600) / 60;
    let seconds = text::padded_digits(s % 60, 2);
    if s / 3600 > 0 {
        text::digits(s / 3600) + ":"@ + text::padded_digits(minutes, 2) + ":"@ + seconds
    } else {
        text::digits(minutes) + ":"@ + seconds
    }
}

/// The time text for `secs`, in whole seconds.
pub fn format_time(secs: Binary64) -> (r: String)
    ensures
        r@ == spec_time_text(binary64::spec_truncated(secs)),
{
    let s: u64 = secs.truncated();
    let h: u64 = s / 3600;
    let m: u64 = (s % 3600) / 60;
    let sc: u64 = s % 60;
    if h > 0 {
        let mut out = text::decimal(h as u128);
        out.append(":");
        out.append(text::padded(m as u128, 2).as_str());
        out.append(":");
        out.append(text::padded(sc as u128, 2).as_str());
        out
    } else {
        let mut out = text::decimal(m as u128);
        out.append(":");
        out.append(text::padded(sc as u128, 2).as_str());
        out
    }
}

impl App {
    /// The window at the start. Saved overrides are in the configuration from
    /// the beginning. Without a saved view it is the monitor that is shown.
    pub fn new(
        saved: &PersistedPaths,
        saved_view: Option<ViewMode>,
        input_panel_open: bool,
        settings_panel_open: bool,
        env: &EnvVars,
    ) -> (r: App)
        ensures
            r@ == spec_new(
                text::opt_text(saved.scripts_dir),
                text::opt_text(saved.work_root),
                saved_view,
                input_panel_open,
                settings_panel_open,
                *env,
            ),
    {
        let app = App {
            cfg: Config::from_paths(saved, env),
            view_mode: match saved_view {
                Some(view) => view,
                None => ViewMode::Monitor,
            },
            status: String::new(),
            save_due_at: None,
            about_open: false,
            paths_open: false,
            input_panel_open,
            settings_panel_open,
            paths_scripts_input: text::copy_or_empty(&saved.scripts_dir),
            paths_work_root_input: text::copy_or_empty(&saved.work_root),
        };
        assert(app.status@ =~= Seq::<char>::empty());
        app
    }

    /// Puts the save of the settings off until `SAVE_DELAY` from now.
    pub fn arm_save(&mut self, now: u128)
        requires
            now + SAVE_DELAY <= u128::MAX,
        ensures
            final(self)@ == spec_arm_save(old(self)@, now),
    {
        self.save_due_at = Some(now + SAVE_DELAY);
    }

    /// What the toolbar holds besides the section of the view's own panel:
    /// in the monitor view a pause button, unless a capture is running, and
    /// the progress of the job in the background, if there is one.
    pub fn toolbar(&self, capturing: bool, paused: bool, job: Option<&JobProgress>) -> (r: Toolbar)
        ensures
            match r {
                Toolbar::Monitor { pause, summary } => {
                    &&& self@.view_mode is Monitor
                    &&& match pause {
                        Some(glyph) => !capturing && glyph@ == (if paused {
                            "▶"@
                        } else {
                            "⏸"@
                        }),
                        None => capturing,
                    }
                    &&& match (job, summary) {
                        (Some(job), Some(text)) => text@ == spec_job_summary(*job),
                        (None, None) => true,
                        _ => false,
                    }
                },
                Toolbar::Upscale => self@.view_mode is Upscale,
            },
    {
        match self.view_mode {
            ViewMode::Monitor => {
                let pause = if capturing {
                    None
                } else if paused {
                    Some("▶")
                } else {
                    Some("⏸")
                };
                let summary = match job {
                    Some(job) => Some(job_summary(job)),
                    None => None,
                };
                Toolbar::Monitor { pause, summary }
            },
            ViewMode::Upscale => Toolbar::Upscale,
        }
    }

    /// Whether a button of the rail is drawn as selected.
    pub fn rail_selected(&self, button: RailButton) -> (r: bool)
        ensures
            r == spec_rail_selected(self@, button),
    {
        match button {
            RailButton::Monitor => self.view_mode == ViewMode::Monitor,
            RailButton::Upscale => self.view_mode == ViewMode::Upscale,
            RailButton::Settings => match self.view_mode {
                ViewMode::Monitor => self.input_panel_open,
                ViewMode::Upscale => self.settings_panel_open,
            },
            RailButton::Paths => self.paths_open,
            RailButton::About => self.about_open,
        }
    }

    /// Takes a click on a button of the rail. Returns whether the view has
    /// changed, which calls for a save of the settings.
    pub fn rail_clicked(&mut self, button: RailButton) -> (r: bool)
        ensures
            final(self)@ == spec_rail_clicked(old(self)@, button),
            r == (final(self)@.view_mode != old(self)@.view_mode),
    {
        match button {
            RailButton::Monitor => {
                let changed = self.view_mode != ViewMode::Monitor;
                self.view_mode = ViewMode::Monitor;
                changed
            },
            RailButton::Upscale => {
                let changed = self.view_mode != ViewMode::Upscale;
                self.view_mode = ViewMode::Upscale;
                changed
            },
            RailButton::Settings => {
                match self.view_mode {
                    ViewMode::Monitor => {
                        self.input_panel_open = !self.input_panel_open;
                    },
                    ViewMode::Upscale => {
                        self.settings_panel_open = !self.settings_panel_open;
                    },
                }
                false
            },
            RailButton::Paths => {
                self.paths_open = !self.paths_open;
                false
            },
            RailButton::About => {
                self.about_open = !self.about_open;
                false
            },
        }
    }

    /// Takes what happened in the Working Directories window, whose fields
    /// hold the two input texts: whether a field was edited, and whether the
    /// button for both defaults was clicked. A change takes effect at once and
    /// is saved a little later. The videos directory stays: other programs
    /// rely on where it is.
    pub fn paths_shown(&mut self, changed: bool, reset: bool, env: &EnvVars, now: u128)
        requires
            changed || reset ==> now + SAVE_DELAY <= u128::MAX,
        ensures
            final(self)@ == spec_paths_shown(old(self)@, changed, reset, *env, now),
    {
        if reset {
            self.paths_scripts_input = String::new();
            self.paths_work_root_input = String::new();
            assert(self.paths_scripts_input@ =~= Seq::<char>::empty());
            assert(self.paths_work_root_input@ =~= Seq::<char>::empty());
        }
        if changed || reset {
            self.cfg.scripts_dir =
            config::effective_path(
                self.paths_scripts_input.as_str(),
                Config::default_scripts_dir(env),
            );
            self.cfg.work_root =
            config::effective_path(
                self.paths_work_root_input.as_str(),
                Config::default_work_root(env),
            );
            self.arm_save(now);
        }
    }

    /// The first panel to draw beside the central one.
    fn side_panel(&self) -> (r: FrameStep)
        ensures
            r == spec_side_panel(self@),
    {
        match self.view_mode {
            ViewMode::Monitor => if self.input_panel_open {
                FrameStep::InputPanel
            } else {
                FrameStep::Central
            },
            ViewMode::Upscale => if self.settings_panel_open {
                FrameStep::SettingsPanel
            } else {
                FrameStep::Library
            },
        }
    }

    /// Takes that `step` of a frame was done at `now`, with its answer, and
    /// says which step comes next. A frame starts with `FrameStep::Render`.
    pub fn update(&mut self, step: FrameStep, answer: bool, now: u128) -> (r: FrameStep)
        requires
            asks_for_save(step, answer) ==> now + SAVE_DELAY <= u128::MAX,
        ensures
            final(self)@ == spec_after_step(old(self)@, step, answer, now),
            r == spec_next_step(old(self)@, step, answer, spec_save_due(old(self)@, now)),
    {
        match step {
            FrameStep::Render => {
                let due = match self.save_due_at {
                    Some(due) => now >= due,
                    None => false,
                };
                if due {
                    self.save_due_at = None;
                    FrameStep::Save
                } else {
                    FrameStep::PollCapture
                }
            },
            FrameStep::Save => FrameStep::PollCapture,
            FrameStep::PollCapture => if answer {
                FrameStep::RefreshLibrary
            } else {
                FrameStep::PollUpscale
            },
            FrameStep::RefreshLibrary => FrameStep::PollUpscale,
            FrameStep::PollUpscale => FrameStep::ToolbarSection,
            FrameStep::ToolbarSection => if answer && self.view_mode == ViewMode::Monitor {
                FrameStep::RefreshFromToolbar
            } else {
                FrameStep::Toolbar
            },
            FrameStep::RefreshFromToolbar => FrameStep::Toolbar,
            FrameStep::Toolbar => FrameStep::Rail,
            FrameStep::Rail => {
                if answer {
                    self.arm_save(now);
                }
                if self.about_open {
                    FrameStep::About
                } else if self.paths_open {
                    FrameStep::Paths
                } else {
                    self.side_panel()
                }
            },
            FrameStep::About => if self.paths_open {
                FrameStep::Paths
            } else {
                self.side_panel()
            },
            FrameStep::Paths => self.side_panel(),
            FrameStep::InputPanel => {
                if answer {
                    self.arm_save(now);
                }
                FrameStep::Central
            },
            FrameStep::SettingsPanel => {
                if answer {
                    self.arm_save(now);
                }
                FrameStep::Library
            },
            FrameStep::Library => FrameStep::Central,
            FrameStep::Central => FrameStep::Done,
            FrameStep::Done => FrameStep::Done,
        }
    }

    /// What the central panel shows: the upscale preview only in the upscale
    /// view, so that capture and upscale can run side by side; else the
    /// player.
    pub fn central(&self, upscaling: bool, capturing: bool) -> (r: Central)
        ensures
            r is UpscalePreview <==> self@.view_mode is Upscale && upscaling,
            r matches Central::Player { show_capture_time } ==> show_capture_time == capturing,
    {
        if self.view_mode == ViewMode::Upscale && upscaling {
            Central::UpscalePreview
        } else {
            Central::Player { show_capture_time: capturing }
        }
    }
}

/// What stands below the player's picture, by the player's state once that is
/// shown: position and duration, or a hint where there is no media.
pub fn caption(time_pos: Binary64, duration: Binary64, idle: bool) -> (r: Caption)
    ensures
        match r {
            Caption::Times(text) => duration.spec_positive() && text@ == spec_time_text(
                binary64::spec_truncated(time_pos),
            ) + " / "@ + spec_time_text(binary64::spec_truncated(duration)),
            Caption::NoMedia => !duration.spec_positive() && idle,
            Caption::Nothing => !duration.spec_positive() && !idle,
        },
{
    if duration.is_positive() {
        let mut text = format_time(time_pos);
        text.append(" / ");
        text.append(format_time(duration).as_str());
        Caption::Times(text)
    } else if idle {
        Caption::NoMedia
    } else {
        Caption::Nothing
    }
}

/// What the text field for a directory shows while it is blank: the default.
pub fn path_hint(default: &FilePath) -> (r: String)
    ensures
        r@ == encoding::utf8_lossy(default@),
        vstd::utf8::valid_utf8(default@) ==> r@ == vstd::utf8::decode_utf8(default@),
{
    encoding::lossy(default.as_bytes())
}

/// The mark behind the text field for a directory.
pub fn path_mark(is_dir: bool) -> (r: &'static str)
    ensures
        r@ == (if is_dir {
            "✓"@
        } else {
            "⚠ not found"@
        }),
{
    if is_dir {
        "✓"
    } else {
        "⚠ not found"
    }
}

/// What is shut down with the window, so that no process is left behind.
#[derive(Clone, Copy, Debug, PartialEq, Eq, Structural)]
pub struct ExitPlan {
    /// Cancel the job in the background, first.
    pub cancel_job: bool,
    /// Stop the capture.
    pub stop_capture: bool,
}

/// What is shut down with the window.
pub fn on_exit(has_job: bool, capture_running: bool) -> (r: ExitPlan)
    ensures
        r.cancel_job == has_job,
        r.stop_capture == capture_running,
{
    ExitPlan { cancel_job: has_job, stop_capture: capture_running }
}

/// What the About window shows of a build.
#[derive(Debug, PartialEq, Eq)]
pub struct BuildInfo {
    pub version: String,
    pub branch: String,
    pub hash: String,
    /// `-dirty`, or nothing for a clean working tree.
    pub dirty: String,
    /// Whether this is a build with debug assertions.
    pub debug: bool,
}

/// The rows of the About window: a label and a text each.
pub open spec fn spec_about_rows(build: BuildInfo, exe: Option<Seq<char>>) -> Seq<
    (Seq<char>, Seq<char>),
> {
    seq![
        ("Version:"@, build.version@),
        ("Commit:"@, build.branch@ + "@"@ + build.hash@ + build.dirty@),
        (
            "Build:"@,
            if build.debug {
                "debug"@
            } else {
                "release"@
            },
        ),
        (
            "Running from:"@,
            match exe {
                Some(path) => path,
                None => "unknown"@,
            },
        ),
    ]
}

/// The texts of rows.
pub open spec fn row_views(rows: Seq<(&'static str, String)>) -> Seq<(Seq<char>, Seq<char>)> {
    rows.map_values(|row: (&'static str, String)| (row.0@, row.1@))
}

/// The rows of the About window, given the path of the running program as a
/// text, if that is known.
pub fn about_rows(build: &BuildInfo, exe: Option<&str>) -> (r: Vec<(&'static str, String)>)
    ensures
        row_views(r@) == spec_about_rows(
            *build,
            match exe {
                Some(path) => Some(path@),
                None => None,
            },
        ),
{
    let mut commit = build.branch.clone();
    commit.append("@");
    commit.append(build.hash.as_str());
    commit.append(build.dirty.as_str());
    let mut rows: Vec<(&'static str, String)> = Vec::new();
    rows.push(("Version:", build.version.clone()));
    rows.push(("Commit:", commit));
    rows.push(
        (
            "Build:",
            if build.debug {
                "debug".to_string()
            } else {
                "release".to_string()
            },
        ),
    );
    rows.push(
        (
            "Running from:",
            match exe {
                Some(path) => path.to_string(),
                None => "unknown".to_string(),
            },
        ),
    );
    assert(row_views(rows@) =~= spec_about_rows(
        *build,
        match exe {
            Some(path) => Some(path@),
            None => None,
        },
    ));
    rows
}

/// A save waits for `SAVE_DELAY` after the last change: it is due from then
/// on and not before, whatever was due earlier. The next frame takes it up,
/// and it is not due a second time.
pub proof fn law_save_waits(app: AppView, armed: u128, now: u128, answer: bool)
    requires
        armed + SAVE_DELAY <= u128::MAX,
    ensures
        spec_save_due(spec_arm_save(app, armed), now) <==> now >= armed + SAVE_DELAY,
        ({
            let waiting = spec_arm_save(app, armed);
            let due = spec_save_due(waiting, now);
            let after = spec_after_step(waiting, FrameStep::Render, answer, now);
            &&& spec_next_step(waiting, FrameStep::Render, answer, due) is Save <==> due
            &&& due ==> after.save_due_at is None
            &&& !due ==> after == waiting
            &&& after == AppView { save_due_at: after.save_due_at, ..waiting }
        }),
        forall|later: u128| !spec_save_due(AppView { save_due_at: None, ..app }, later),
{
}

/// Where a step stands in a frame.
pub open spec fn rank(step: FrameStep) -> int {
    match step {
        FrameStep::Render => 0,
        FrameStep::Save => 1,
        FrameStep::PollCapture => 2,
        FrameStep::RefreshLibrary => 3,
        FrameStep::PollUpscale => 4,
        FrameStep::ToolbarSection => 5,
        FrameStep::RefreshFromToolbar => 6,
        FrameStep::Toolbar => 7,
        FrameStep::Rail => 8,
        FrameStep::About => 9,
        FrameStep::Paths => 10,
        FrameStep::InputPanel => 11,
        FrameStep::SettingsPanel => 12,
        FrameStep::Library => 13,
        FrameStep::Central => 14,
        FrameStep::Done => 15,
    }
}

/// Whether no frame goes without `step`.
pub open spec fn is_always_done(step: FrameStep) -> bool {
    ||| step is PollCapture
    ||| step is PollUpscale
    ||| step is ToolbarSection
    ||| step is Toolbar
    ||| step is Rail
    ||| step is Central
}

/// A frame goes through its steps in their order, each at most once, and ends.
/// Both polls, the toolbar, the rail and the central panel are part of every
/// frame, whatever is open and whatever the answers are.
pub proof fn law_frame_order(
    app: AppView,
    step: FrameStep,
    answer: bool,
    due: bool,
    other: FrameStep,
)
    requires
        !(step is Done),
    ensures
        rank(spec_next_step(app, step, answer, due)) > rank(step),
        is_always_done(other) && rank(step) < rank(other) ==> rank(
            spec_next_step(app, step, answer, due),
        ) <= rank(other),
        rank(step) == rank(other) ==> step == other,
{
}

/// The library is read again right after a step that says it has changed (the
/// poll of the capture, or the monitor's section of the toolbar, before the
/// rest of that is drawn), and at no other point of a frame.
pub proof fn law_reported_changes_are_read(
    app: AppView,
    step: FrameStep,
    answer: bool,
    due: bool,
)
    ensures
        ({
            let next = spec_next_step(app, step, answer, due);
            next is RefreshLibrary || next is RefreshFromToolbar <==> answer && (step is PollCapture
                || (step is ToolbarSection && app.view_mode is Monitor))
        }),
{
}

/// Behind the rail a frame draws what is open and nothing else: each window if
/// it is open, the input settings in the monitor view alone, the upscale
/// settings and the library in the upscale view alone, the library always.
pub proof fn law_frame_draws_what_is_open(app: AppView, step: FrameStep, answer: bool, due: bool)
    requires
        rank(step) >= rank(FrameStep::Rail),
    ensures
        ({
            let next = spec_next_step(app, step, answer, due);
            let passed = |other: FrameStep| rank(step) < rank(other) < rank(next);
            &&& next is About ==> app.about_open
            &&& next is Paths ==> app.paths_open
            &&& next is InputPanel ==> app.view_mode is Monitor && app.input_panel_open
            &&& next is SettingsPanel ==> app.view_mode is Upscale && app.settings_panel_open
            &&& passed(FrameStep::About) ==> !app.about_open
            &&& passed(FrameStep::Paths) ==> !app.paths_open
            &&& rank(step) <= rank(FrameStep::Paths) ==> {
                &&& next is Library ==> app.view_mode is Upscale
                &&& passed(FrameStep::InputPanel) ==> !(app.view_mode is Monitor
                    && app.input_panel_open)
                &&& passed(FrameStep::SettingsPanel) ==> !(app.view_mode is Upscale
                    && app.settings_panel_open)
                &&& passed(FrameStep::Library) ==> app.view_mode is Monitor
            }
        }),
{
}

/// A click on a view's button shows that view, and no click but one on the
/// other view's button changes the view. The other buttons toggle: a second
/// click undoes the first.
pub proof fn law_rail_clicks(app: AppView, button: RailButton)
    ensures
        ({
            let after = spec_rail_clicked(app, button);
            let of_view = button is Monitor || button is Upscale;
            &&& of_view ==> spec_rail_selected(after, button)
            &&& of_view ==> spec_rail_clicked(after, button) == after
            &&& after.view_mode != app.view_mode <==> of_view && !spec_rail_selected(app, button)
            &&& !of_view ==> spec_rail_selected(after, button) == !spec_rail_selected(app, button)
            &&& !of_view ==> spec_rail_clicked(after, button) == app
            &&& spec_rail_selected(after, RailButton::Monitor) != spec_rail_selected(
                after,
                RailButton::Upscale,
            )
        }),
{
}

/// Whether the directories in use are those that the text fields stand for.
pub open spec fn fields_agree(app: AppView, env: EnvVars) -> bool {
    &&& app.cfg.scripts_dir == config::override_or(
        Some(app.paths_scripts_input),
        config::spec_default_scripts_dir(env),
    )
    &&& app.cfg.work_root == config::override_or(
        Some(app.paths_work_root_input),
        config::spec_default_work_root(env),
    )
}

/// The directories in use are those that the text fields stand for: they are
/// at the start, they are once the Working Directories window has reported
/// what was edited, and nothing else in a frame affects them.
pub proof fn law_fields_agree(
    scripts_dir: Option<Seq<char>>,
    work_root: Option<Seq<char>>,
    saved_view: Option<ViewMode>,
    env: EnvVars,
    app: AppView,
    changed: bool,
    reset: bool,
    now: u128,
    button: RailButton,
    step: FrameStep,
    answer: bool,
)
    ensures
        forall|a: bool, b: bool|
            fields_agree(#[trigger] spec_new(scripts_dir, work_root, saved_view, a, b, env), env),
        fields_agree(app, env) || changed || reset ==> fields_agree(
            spec_paths_shown(app, changed, reset, env, now),
            env,
        ),
        fields_agree(app, env) ==> fields_agree(spec_rail_clicked(app, button), env),
        fields_agree(app, env) ==> fields_agree(spec_after_step(app, step, answer, now), env),
{
    assert forall|a: bool, b: bool|
        fields_agree(#[trigger] spec_new(scripts_dir, work_root, saved_view, a, b, env), env) by {
        text::law_trim_twice(Seq::empty());
    }
}

/// Whether `saved` stands for the text `input` of a field: a blank text is
/// saved as none, another with or without the white space around it.
pub open spec fn saves(saved: Option<Seq<char>>, input: Seq<char>) -> bool {
    match saved {
        Some(t) => text::spec_trim(t) == text::spec_trim(input),
        None => text::spec_trim(input).len() == 0,
    }
}

/// An edit in the Working Directories window takes effect at once just as it
/// does after a restart with the texts that are saved for it. The videos
/// directory is the same before and after.
pub proof fn law_edit_agrees_with_restart(
    app: AppView,
    changed: bool,
    reset: bool,
    env: EnvVars,
    now: u128,
    scripts_dir: Option<Seq<char>>,
    work_root: Option<Seq<char>>,
    saved_scripts: Option<Seq<char>>,
    saved_work_root: Option<Seq<char>>,
)
    requires
        app.cfg == config::spec_from_paths(scripts_dir, work_root, env),
        changed || reset,
        ({
            let after = spec_paths_shown(app, changed, reset, env, now);
            &&& saves(saved_scripts, after.paths_scripts_input)
            &&& saves(saved_work_root, after.paths_work_root_input)
        }),
    ensures
        ({
            let after = spec_paths_shown(app, changed, reset, env, now);
            &&& after.cfg == config::spec_from_paths(saved_scripts, saved_work_root, env)
            &&& after.cfg.videos_dir == app.cfg.videos_dir
            &&& reset ==> after.cfg == config::spec_from_paths(None, None, env)
        }),
{
    text::law_trim_twice(Seq::empty());
}

/// At the start nothing is open and nothing is to be saved; the saved view is
/// shown, or the monitor, and the fields hold the saved overrides.
pub proof fn law_start(
    scripts_dir: Option<Seq<char>>,
    work_root: Option<Seq<char>>,
    saved_view: Option<ViewMode>,
    input_panel_open: bool,
    settings_panel_open: bool,
    env: EnvVars,
)
    ensures
        ({
            let app = spec_new(
                scripts_dir,
                work_root,
                saved_view,
                input_panel_open,
                settings_panel_open,
                env,
            );
            &&& app.cfg == config::spec_from_paths(scripts_dir, work_root, env)
            &&& saved_view matches Some(view) ==> app.view_mode == view
            &&& saved_view is None ==> app.view_mode is Monitor
            &&& app.status.len() == 0
            &&& app.save_due_at is None
            &&& !app.about_open
            &&& !app.paths_open
            &&& app.input_panel_open == input_panel_open
            &&& app.settings_panel_open == settings_panel_open
            &&& scripts_dir matches Some(t) ==> app.paths_scripts_input == t
            &&& scripts_dir is None ==> app.paths_scripts_input.len() == 0
            &&& work_root matches Some(t) ==> app.paths_work_root_input == t
            &&& work_root is None ==> app.paths_work_root_input.len() == 0
        }),
{
}

/// A save is put off by 750 ms from now on, whatever was due before, and
/// nothing else changes.
pub proof fn law_save_delay(app: AppView, now: u128, later: u128)
    requires
        now + 750_000_000 <= u128::MAX,
    ensures
        spec_arm_save(app, now).save_due_at == Some((now + 750_000_000) as u128),
        spec_arm_save(app, now) == (AppView {
            save_due_at: spec_arm_save(app, now).save_due_at,
            ..app
        }),
        spec_save_due(spec_arm_save(app, now), later) <==> later >= now + 750_000_000,
{
}

/// A save is asked for by a change of the view and by a change of a setting,
/// and by nothing else in a frame. Only the start of a frame takes up one that
/// is due. No step changes anything else.
pub proof fn law_what_asks_for_a_save(app: AppView, step: FrameStep, answer: bool, now: u128)
    requires
        now + 750_000_000 <= u128::MAX,
    ensures
        ({
            let after = spec_after_step(app, step, answer, now);
            let changed = answer && (step == FrameStep::Rail || step == FrameStep::InputPanel
                || step == FrameStep::SettingsPanel);
            let taken = step == FrameStep::Render && app.save_due_at is Some && app.save_due_at->0
                <= now;
            &&& changed ==> after.save_due_at == Some((now + 750_000_000) as u128)
            &&& taken ==> after.save_due_at is None
            &&& !changed && !taken ==> after.save_due_at == app.save_due_at
            &&& after == AppView { save_due_at: after.save_due_at, ..app }
        }),
{
}

/// The steps that have one successor, and what decides on that of the others
/// before the rail.
pub proof fn law_frame_successors(app: AppView, answer: bool, due: bool)
    ensures
        spec_next_step(app, FrameStep::Render, answer, true) is Save,
        spec_next_step(app, FrameStep::Render, answer, false) is PollCapture,
        spec_next_step(app, FrameStep::Save, answer, due) is PollCapture,
        spec_next_step(app, FrameStep::PollCapture, true, due) is RefreshLibrary,
        spec_next_step(app, FrameStep::PollCapture, false, due) is PollUpscale,
        spec_next_step(app, FrameStep::RefreshLibrary, answer, due) is PollUpscale,
        spec_next_step(app, FrameStep::PollUpscale, answer, due) is ToolbarSection,
        spec_next_step(app, FrameStep::ToolbarSection, false, due) is Toolbar,
        app.view_mode is Monitor ==> spec_next_step(app, FrameStep::ToolbarSection, true, due)
            is RefreshFromToolbar,
        app.view_mode is Upscale ==> spec_next_step(app, FrameStep::ToolbarSection, true, due)
            is Toolbar,
        spec_next_step(app, FrameStep::RefreshFromToolbar, answer, due) is Toolbar,
        spec_next_step(app, FrameStep::Toolbar, answer, due) is Rail,
        spec_next_step(app, FrameStep::InputPanel, answer, due) is Central,
        spec_next_step(app, FrameStep::SettingsPanel, answer, due) is Library,
        spec_next_step(app, FrameStep::Library, answer, due) is Central,
        spec_next_step(app, FrameStep::Central, answer, due) is Done,
        spec_next_step(app, FrameStep::Done, answer, due) is Done,
{
}

/// A click changes the field of its own button and no other.
pub proof fn law_clicks_are_separate(app: AppView, button: RailButton)
    ensures
        ({
            let after = spec_rail_clicked(app, button);
            let monitor = app.view_mode == ViewMode::Monitor;
            let settings = button == RailButton::Settings;
            &&& after.cfg == app.cfg
            &&& after.status == app.status
            &&& after.save_due_at == app.save_due_at
            &&& after.paths_scripts_input == app.paths_scripts_input
            &&& after.paths_work_root_input == app.paths_work_root_input
            &&& after.about_open == (app.about_open != (button == RailButton::About))
            &&& after.paths_open == (app.paths_open != (button == RailButton::Paths))
            &&& after.input_panel_open == (app.input_panel_open != (settings && monitor))
            &&& after.settings_panel_open == (app.settings_panel_open != (settings && !monitor))
            &&& button == RailButton::Monitor ==> after.view_mode == ViewMode::Monitor
            &&& button == RailButton::Upscale ==> after.view_mode == ViewMode::Upscale
            &&& button != RailButton::Monitor && button != RailButton::Upscale ==> after.view_mode
                == app.view_mode
        }),
{
}

/// A button is drawn as selected where what it stands for is shown.
pub proof fn law_selected_is_shown(app: AppView)
    ensures
        spec_rail_selected(app, RailButton::Monitor) <==> app.view_mode is Monitor,
        spec_rail_selected(app, RailButton::Upscale) <==> app.view_mode is Upscale,
        spec_rail_selected(app, RailButton::Paths) <==> app.paths_open,
        spec_rail_selected(app, RailButton::About) <==> app.about_open,
        app.view_mode is Monitor ==> (spec_rail_selected(app, RailButton::Settings)
            <==> app.input_panel_open),
        app.view_mode is Upscale ==> (spec_rail_selected(app, RailButton::Settings)
            <==> app.settings_panel_open),
{
}

/// The icons of the buttons and what is told about them.
pub proof fn law_rail_texts(mode: ViewMode)
    ensures
        RailButton::Monitor.spec_glyph() == "⏺"@,
        RailButton::Upscale.spec_glyph() == "⬆"@,
        RailButton::Settings.spec_glyph() == "⚙"@,
        RailButton::Paths.spec_glyph() == "📁"@,
        RailButton::About.spec_glyph() == "ℹ"@,
        RailButton::Monitor.spec_hint(mode) == "Monitor"@,
        RailButton::Upscale.spec_hint(mode) == "Upscale"@,
        RailButton::Settings.spec_hint(ViewMode::Monitor) == "Input Settings"@,
        RailButton::Settings.spec_hint(ViewMode::Upscale) == "Upscale Settings"@,
        RailButton::Paths.spec_hint(mode) == "Working Directories"@,
        RailButton::About.spec_hint(mode) == "About"@,
{
}

/// Without a change the Working Directories window changes nothing. A reset
/// clears both fields, an edit keeps them, and after either each directory
/// follows its own field and a save is put off by 750 ms. Nothing else changes.
pub proof fn law_paths_window(app: AppView, changed: bool, reset: bool, env: EnvVars, now: u128)
    requires
        now + 750_000_000 <= u128::MAX,
    ensures
        ({
            let after = spec_paths_shown(app, changed, reset, env, now);
            &&& !changed && !reset ==> after == app
            &&& reset ==> after.paths_scripts_input.len() == 0
                && after.paths_work_root_input.len() == 0
            &&& !reset ==> after.paths_scripts_input == app.paths_scripts_input
                && after.paths_work_root_input == app.paths_work_root_input
            &&& changed || reset ==> {
                &&& after.save_due_at == Some((now + 750_000_000) as u128)
                &&& after.cfg.scripts_dir == config::override_or(
                    Some(after.paths_scripts_input),
                    config::spec_default_scripts_dir(env),
                )
                &&& after.cfg.work_root == config::override_or(
                    Some(after.paths_work_root_input),
                    config::spec_default_work_root(env),
                )
            }
            &&& after == AppView {
                cfg: ConfigView {
                    scripts_dir: after.cfg.scripts_dir,
                    work_root: after.cfg.work_root,
                    ..app.cfg
                },
                save_due_at: after.save_due_at,
                paths_scripts_input: after.paths_scripts_input,
                paths_work_root_input: after.paths_work_root_input,
                ..app
            }
        }),
{
}

/// The short form of a job's progress tells how many segments are done, of how
/// many, where that is known, and then how long the job has been running.
pub proof fn law_job_summary(job: JobProgress)
    ensures
        job.total_segments == 0 ==> spec_job_summary(job) == "⬆ "@ + job.elapsed@,
        job.total_segments > 0 ==> exists|done: Seq<char>, all: Seq<char>|
            #![trigger text::all_digits(done), text::all_digits(all)]
            spec_job_summary(job) == "⬆ "@ + done + "/"@ + all + " segs  "@ + job.elapsed@
                && text::all_digits(done) && text::all_digits(all) && text::number(done)
                == job.completed_segments && text::number(all) == job.total_segments,
{
    text::law_decimal_reads_back(job.completed_segments as nat);
    text::law_decimal_reads_back(job.total_segments as nat);
    let done = text::digits(job.completed_segments as nat);
    let all = text::digits(job.total_segments as nat);
    assert(text::all_digits(done) && text::all_digits(all));
}

/// Whether `t` is a number that reads as `n`, in `width` digits, or without
/// leading zeros where that is 0.
pub open spec fn shows(t: Seq<char>, n: nat, width: nat) -> bool {
    &&& text::all_digits(t)
    &&& text::number(t) == n
    &&& width > 0 ==> t.len() == width
    &&& width == 0 ==> t.len() == 1 || (t.len() > 1 && t[0] != '0')
}

/// A time text tells hours, minutes and seconds that make up the time, the
/// smaller ones below 60 and in two digits; below an hour it starts with the
/// minutes.
pub proof fn law_time_text_reads_back(s: nat)
    ensures
        s < 3600 ==> exists|minutes: Seq<char>, seconds: Seq<char>|
            #![trigger shows(minutes, s / 60, 0), shows(seconds, s % 60, 2)]
            spec_time_text(s) == minutes + ":"@ + seconds && shows(minutes, s / 60, 0) && shows(
                seconds,
                s % 60,
                2,
            ),
        s >= 3600 ==> exists|hours: Seq<char>, minutes: Seq<char>, seconds: Seq<char>|
            #![trigger shows(hours, s / 3600, 0), shows(minutes, s / 60 % 60, 2), shows(seconds, s % 60, 2)]
            spec_time_text(s) == hours + ":"@ + minutes + ":"@ + seconds && shows(
                hours,
                s / 3600,
                0,
            ) && shows(minutes, s / 60 % 60, 2) && shows(seconds, s % 60, 2),
{
    let (h, m, sec) = (s / 3600, (s % 3600) / 60, s % 60);
    assert(m == s / 60 % 60);
    lemma_two_digits(m);
    lemma_two_digits(sec);
    text::law_decimal_reads_back(h);
    text::law_decimal_reads_back(m);
    let (x, y, z) = (text::digits(h), text::padded_digits(m, 2), text::padded_digits(sec, 2));
    assert(shows(x, s / 3600, 0) && shows(y, s / 60 % 60, 2) && shows(z, s % 60, 2));
    if s < 3600 {
        assert(m == s / 60);
        assert(shows(text::digits(m), s / 60, 0));
    }
}

/// A number below 60 in two digits.
proof fn lemma_two_digits(n: nat)
    requires
        n < 60,
    ensures
        shows(text::padded_digits(n, 2), n, 2),
{
    text::law_padded_reads_back(n, 2);
    assert(text::tens(2) == 100) by {
        reveal_with_fuel(text::tens, 3);
    }
    text::law_decimal_is_short(n, 2);
}

/// The About window tells the version, the commit with its branch, what kind
/// of build this is and where it runs from.
pub proof fn law_about_rows(build: BuildInfo, exe: Option<Seq<char>>)
    ensures
        ({
            let rows = spec_about_rows(build, exe);
            &&& rows.len() == 4
            &&& rows[0] == ("Version:"@, build.version@)
            &&& rows[1] == ("Commit:"@, build.branch@ + "@"@ + build.hash@ + build.dirty@)
            &&& build.debug ==> rows[2] == ("Build:"@, "debug"@)
            &&& !build.debug ==> rows[2] == ("Build:"@, "release"@)
            &&& exe matches Some(path) ==> rows[3] == ("Running from:"@, path)
            &&& exe is None ==> rows[3] == ("Running from:"@, "unknown"@)
        }),
{
}

/// What is shown where there is no media.
pub proof fn law_no_media()
    ensures
        NO_MEDIA@ == "No media\nSelect a file from the library or start monitoring"@,
{
}

} // verus!
