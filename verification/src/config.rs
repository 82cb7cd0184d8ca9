//! Where everything lives: the directories and scripts the application works
//! with, layered from saved overrides, environment variables and defaults.
use crate::path;
use crate::path::FilePath;
use crate::text;
use vstd::prelude::*;

verus! {

/// The environment variables that the configuration reads. A variable that is
/// unset, or whose value is not UTF-8, is `None`.
#[derive(Debug, PartialEq, Eq)]
pub struct EnvVars {
    /// `HOME`
    pub home: Option<String>,
    /// `USER`
    pub user: Option<String>,
    /// `SCRIPTS_DIR`
    pub scripts_dir: Option<String>,
    /// `WORK_ROOT`
    pub work_root: Option<String>,
}

/// Directory overrides that were saved from the Working Directories window.
/// A blank override counts as none.
#[derive(Debug, PartialEq, Eq)]
pub struct PersistedPaths {
    pub scripts_dir: Option<String>,
    pub work_root: Option<String>,
}

impl Default for PersistedPaths {
    fn default() -> (r: PersistedPaths)
        ensures
            r.scripts_dir is None,
            r.work_root is None,
    {
        PersistedPaths { scripts_dir: None, work_root: None }
    }
}

/// The directories and capture settings in use.
#[derive(Debug, PartialEq, Eq)]
pub struct Config {
    pub videos_dir: FilePath,
    /// Where the helper scripts lie. Editable in the Working Directories
    /// window.
    pub scripts_dir: FilePath,
    /// Scratch root for resumable upscale checkpoints. Editable in the Working
    /// Directories window.
    pub work_root: FilePath,
    pub v4l2_device: String,
    pub max_capture_duration: String,
}

/// What a configuration says.
#[verifier::ext_equal]
pub struct ConfigView {
    pub videos_dir: Seq<u8>,
    pub scripts_dir: Seq<u8>,
    pub work_root: Seq<u8>,
    pub v4l2_device: Seq<char>,
    pub max_capture_duration: Seq<char>,
}

impl View for Config {
    type V = ConfigView;

    open spec fn view(&self) -> ConfigView {
        ConfigView {
            videos_dir: self.videos_dir@,
            scripts_dir: self.scripts_dir@,
            work_root: self.work_root@,
            v4l2_device: self.v4l2_device@,
            max_capture_duration: self.max_capture_duration@,
        }
    }
}

/// The home directory: `HOME`, or `/home/user` when that is unset.
pub open spec fn spec_home(env: EnvVars) -> Seq<u8> {
    match env.home {
        Some(home) => path::bytes_of(home@),
        None => path::bytes_of("/home/user"@),
    }
}

/// The scripts directory in the absence of an override: `SCRIPTS_DIR`, or
/// `Videos/vhs-cli` under the home directory.
pub open spec fn spec_default_scripts_dir(env: EnvVars) -> Seq<u8> {
    match env.scripts_dir {
        Some(dir) => path::bytes_of(dir@),
        None => path::spec_join(spec_home(env), path::bytes_of("Videos/vhs-cli"@)),
    }
}

/// The upscale work root in the absence of an override: `WORK_ROOT`, or a
/// directory on the user's scratch medium.
pub open spec fn spec_default_work_root(env: EnvVars) -> Seq<u8> {
    match env.work_root {
        Some(dir) => path::bytes_of(dir@),
        None => {
            let user = match env.user {
                Some(user) => user@,
                None => "user"@,
            };
            path::bytes_of("/media/"@ + user + "/scratch/Videos/vhs_upscale_work"@)
        },
    }
}

/// The directory that an override text stands for: the trimmed text, or
/// `default` when the text is absent or blank.
pub open spec fn override_or(text: Option<Seq<char>>, default: Seq<u8>) -> Seq<u8> {
    match text {
        Some(t) => if text::spec_trim(t).len() > 0 {
            path::bytes_of(text::spec_trim(t))
        } else {
            default
        },
        None => default,
    }
}

/// The configuration for the override texts `scripts_dir` and `work_root`.
pub open spec fn spec_from_paths(
    scripts_dir: Option<Seq<char>>,
    work_root: Option<Seq<char>>,
    env: EnvVars,
) -> ConfigView {
    ConfigView {
        videos_dir: path::spec_join(spec_home(env), path::bytes_of("Videos"@)),
        scripts_dir: override_or(scripts_dir, spec_default_scripts_dir(env)),
        work_root: override_or(work_root, spec_default_work_root(env)),
        v4l2_device: "/dev/v4l/by-id/usb-MACROSIL_AV_TO_USB2.0-video-index0"@,
        max_capture_duration: "02:00:00"@,
    }
}

/// The directory that `buf` stands for: the trimmed text, or `default` when
/// the text is blank.
pub fn effective_path(buf: &str, default: FilePath) -> (r: FilePath)
    ensures
        r@ == override_or(Some(buf@), default@),
{
    let trimmed = text::trim(buf);
    if trimmed.is_empty() {
        default
    } else {
        FilePath::new(trimmed)
    }
}

impl Config {
    /// The home directory.
    pub fn home(env: &EnvVars) -> (r: FilePath)
        ensures
            r@ == spec_home(*env),
    {
        match &env.home {
            Some(home) => FilePath::new(home.as_str()),
            None => FilePath::new("/home/user"),
        }
    }

    /// The scripts directory that is used without an override.
    pub fn default_scripts_dir(env: &EnvVars) -> (r: FilePath)
        ensures
            r@ == spec_default_scripts_dir(*env),
    {
        match &env.scripts_dir {
            Some(dir) => FilePath::new(dir.as_str()),
            None => Config::home(env).join("Videos/vhs-cli"),
        }
    }

    /// The upscale work root that is used without an override.
    pub fn default_work_root(env: &EnvVars) -> (r: FilePath)
        ensures
            r@ == spec_default_work_root(*env),
    {
        match &env.work_root {
            Some(dir) => FilePath::new(dir.as_str()),
            None => {
                let mut dir = "/media/".to_string();
                match &env.user {
                    Some(user) => {
                        dir.append(user.as_str());
                    },
                    None => {
                        dir.append("user");
                    },
                }
                dir.append("/scratch/Videos/vhs_upscale_work");
                FilePath::new(dir.as_str())
            },
        }
    }

    /// Layers saved overrides over environment variables over defaults. A
    /// blank or absent override falls through to the next tier.
    pub fn from_paths(paths: &PersistedPaths, env: &EnvVars) -> (r: Config)
        ensures
            r@ == spec_from_paths(text::opt_text(paths.scripts_dir), text::opt_text(paths.work_root), *env),
    {
        let scripts_dir = match &paths.scripts_dir {
            Some(dir) => effective_path(dir.as_str(), Config::default_scripts_dir(env)),
            None => Config::default_scripts_dir(env),
        };
        let work_root = match &paths.work_root {
            Some(dir) => effective_path(dir.as_str(), Config::default_work_root(env)),
            None => Config::default_work_root(env),
        };
        Config {
            videos_dir: Config::home(env).join("Videos"),
            scripts_dir,
            work_root,
            v4l2_device: "/dev/v4l/by-id/usb-MACROSIL_AV_TO_USB2.0-video-index0".to_string(),
            max_capture_duration: "02:00:00".to_string(),
        }
    }

    /// The configuration without any saved override.
    pub fn without_overrides(env: &EnvVars) -> (r: Config)
        ensures
            r@ == spec_from_paths(None, None, *env),
    {
        Config::from_paths(&PersistedPaths::default(), env)
    }

    /// Where captures are archived.
    pub fn archival_dir(&self) -> (r: FilePath)
        ensures
            r@ == path::spec_join(self.videos_dir@, path::bytes_of("captures/archival"@)),
    {
        self.videos_dir.join("captures/archival")
    }

    /// Where stabilized captures and edit masters lie.
    pub fn stabilized_dir(&self) -> (r: FilePath)
        ensures
            r@ == path::spec_join(self.videos_dir@, path::bytes_of("captures/stabilized"@)),
    {
        self.videos_dir.join("captures/stabilized")
    }

    /// Where viewer encodes lie.
    pub fn viewer_dir(&self) -> (r: FilePath)
        ensures
            r@ == path::spec_join(self.videos_dir@, path::bytes_of("captures/viewer"@)),
    {
        self.videos_dir.join("captures/viewer")
    }

    /// Where job logs are written.
    pub fn log_dir(&self) -> (r: FilePath)
        ensures
            r@ == path::spec_join(self.videos_dir@, path::bytes_of("logs"@)),
    {
        self.videos_dir.join("logs")
    }

    /// The file that records the process group of a running capture.
    pub fn capture_pgid_file(&self) -> (r: FilePath)
        ensures
            r@ == path::spec_join(
                path::spec_join(self.videos_dir@, path::bytes_of("logs"@)),
                path::bytes_of("capture.pgid"@),
            ),
    {
        self.log_dir().join("capture.pgid")
    }

    /// The capture script.
    pub fn capture_script(&self) -> (r: FilePath)
        ensures
            r@ == path::spec_join(self.scripts_dir@, path::bytes_of("vhs_capture_ffmpeg.sh"@)),
    {
        self.scripts_dir.join("vhs_capture_ffmpeg.sh")
    }

    /// Where the VapourSynth `.vpy` scripts lie.
    pub fn tools_dir(&self) -> (r: FilePath)
        ensures
            r@ == path::spec_join(self.scripts_dir@, path::bytes_of("vhs-env/tools"@)),
    {
        self.scripts_dir.join("vhs-env/tools")
    }

    /// The denoise script.
    pub fn denoise_script(&self) -> (r: FilePath)
        ensures
            r@ == path::spec_join(self.scripts_dir@, path::bytes_of("vhs_denoise.sh"@)),
    {
        self.scripts_dir.join("vhs_denoise.sh")
    }

    /// The combined denoise and deinterlace script.
    pub fn process_script(&self) -> (r: FilePath)
        ensures
            r@ == path::spec_join(self.scripts_dir@, path::bytes_of("vhs_process.sh"@)),
    {
        self.scripts_dir.join("vhs_process.sh")
    }

    /// The viewer encode script.
    pub fn viewer_encode_script(&self) -> (r: FilePath)
        ensures
            r@ == path::spec_join(self.scripts_dir@, path::bytes_of("vhs_viewer_encode.sh"@)),
    {
        self.scripts_dir.join("vhs_viewer_encode.sh")
    }

    /// The upscale script.
    pub fn upscale_script(&self) -> (r: FilePath)
        ensures
            r@ == path::spec_join(self.scripts_dir@, path::bytes_of("vhs_upscale.sh"@)),
    {
        self.scripts_dir.join("vhs_upscale.sh")
    }

    /// The upscale script for animation.
    pub fn upscale_anime_script(&self) -> (r: FilePath)
        ensures
            r@ == path::spec_join(self.scripts_dir@, path::bytes_of("vhs_upscale_anime.sh"@)),
    {
        self.scripts_dir.join("vhs_upscale_anime.sh")
    }

    /// The upscale script for black and white material.
    pub fn upscale_bw_script(&self) -> (r: FilePath)
        ensures
            r@ == path::spec_join(self.scripts_dir@, path::bytes_of("vhs_upscale_bw.sh"@)),
    {
        self.scripts_dir.join("vhs_upscale_bw.sh")
    }

    /// The scratch root for upscale checkpoints.
    pub fn upscale_work_root(&self) -> (r: FilePath)
        ensures
            r@ == self.work_root@,
    {
        self.work_root.copy()
    }
}

/// A blank override counts as none, and white space around an override does
/// not matter.
pub proof fn law_blank_override_is_none(text: Seq<char>, default: Seq<u8>)
    ensures
        (forall|i: int| 0 <= i < text.len() ==> text::is_white(#[trigger] text[i]))
            ==> override_or(Some(text), default) == override_or(None, default),
        override_or(Some(text::spec_trim(text)), default) == override_or(Some(text), default),
{
    text::law_trim_twice(text);
}

/// Overrides win over environment variables, and those over the defaults; the
/// two directories do not affect each other, nor the rest of the
/// configuration.
pub proof fn law_overrides_are_layered(
    scripts_dir: Option<Seq<char>>,
    work_root: Option<Seq<char>>,
    env: EnvVars,
)
    ensures
        ({
            let cfg = spec_from_paths(scripts_dir, work_root, env);
            let plain = spec_from_paths(None, None, env);
            let given = |o: Option<Seq<char>>| o is Some && text::spec_trim(o->0).len() > 0;
            &&& cfg.scripts_dir == (if given(scripts_dir) {
                path::bytes_of(text::spec_trim(scripts_dir->0))
            } else {
                plain.scripts_dir
            })
            &&& cfg.work_root == (if given(work_root) {
                path::bytes_of(text::spec_trim(work_root->0))
            } else {
                plain.work_root
            })
            &&& plain.scripts_dir == (match env.scripts_dir {
                Some(dir) => path::bytes_of(dir@),
                None => path::spec_join(spec_home(env), path::bytes_of("Videos/vhs-cli"@)),
            })
            &&& cfg == ConfigView {
                scripts_dir: cfg.scripts_dir,
                work_root: cfg.work_root,
                ..plain
            }
        }),
{
}

/// What is used without overrides and environment variables, and which
/// variable replaces what: `HOME`, or `/home/user`, holds `Videos` and the
/// scripts; the work root lies on the scratch medium of `USER`, or of `user`.
/// The capture device and the longest capture are fixed.
pub proof fn law_defaults(
    scripts_dir: Option<Seq<char>>,
    work_root: Option<Seq<char>>,
    env: EnvVars,
)
    ensures
        ({
            let cfg = spec_from_paths(scripts_dir, work_root, env);
            let plain = spec_from_paths(None, None, env);
            let home = path::bytes_of(
                match env.home {
                    Some(home) => home@,
                    None => "/home/user"@,
                },
            );
            let user = match env.user {
                Some(user) => user@,
                None => "user"@,
            };
            &&& spec_home(env) == home
            &&& cfg.videos_dir == path::spec_join(home, path::bytes_of("Videos"@))
            &&& cfg.v4l2_device == "/dev/v4l/by-id/usb-MACROSIL_AV_TO_USB2.0-video-index0"@
            &&& cfg.max_capture_duration == "02:00:00"@
            &&& plain.scripts_dir == (match env.scripts_dir {
                Some(dir) => path::bytes_of(dir@),
                None => path::spec_join(home, path::bytes_of("Videos/vhs-cli"@)),
            })
            &&& plain.work_root == (match env.work_root {
                Some(dir) => path::bytes_of(dir@),
                None => path::bytes_of("/media/"@ + user + "/scratch/Videos/vhs_upscale_work"@),
            })
        }),
{
}

/// An override stands for the text between the white space around it.
pub proof fn law_override_is_trimmed(
    left: Seq<char>,
    core: Seq<char>,
    right: Seq<char>,
    default: Seq<u8>,
)
    requires
        forall|i: int| 0 <= i < left.len() ==> text::is_white(#[trigger] left[i]),
        forall|i: int| 0 <= i < right.len() ==> text::is_white(#[trigger] right[i]),
        core.len() > 0 ==> !text::is_white(core[0]) && !text::is_white(core.last()),
    ensures
        override_or(Some(left + core + right), default) == (if core.len() > 0 {
            path::bytes_of(core)
        } else {
            default
        }),
        override_or(None, default) == default,
{
    text::law_trim_is_the_core(left, core, right);
}

} // verus!
