use vhs_gui::config::{effective_path, Config, EnvVars, PersistedPaths};
use vhs_gui::path::FilePath;

fn no_env() -> EnvVars {
    EnvVars { home: None, user: None, scripts_dir: None, work_root: None }
}

fn full_env() -> EnvVars {
    EnvVars {
        home: Some("/home/ann".into()),
        user: Some("ann".into()),
        scripts_dir: Some("/opt/scripts".into()),
        work_root: Some("/mnt/work".into()),
    }
}

#[test]
fn from_paths_prefers_gui_override() {
    let paths = PersistedPaths {
        scripts_dir: Some("/tmp/custom-scripts".into()),
        work_root: Some("/tmp/custom-work-root".into()),
    };
    for env in [no_env(), full_env()] {
        let cfg = Config::from_paths(&paths, &env);
        assert_eq!(cfg.scripts_dir, FilePath::new("/tmp/custom-scripts"));
        assert_eq!(cfg.work_root, FilePath::new("/tmp/custom-work-root"));
    }
}

#[test]
fn from_paths_falls_back_when_blank_or_absent() {
    let blank = PersistedPaths { scripts_dir: Some("   ".into()), work_root: Some(String::new()) };
    let absent = PersistedPaths::default();
    for env in [no_env(), full_env()] {
        let cfg_blank = Config::from_paths(&blank, &env);
        let cfg_absent = Config::from_paths(&absent, &env);
        assert_eq!(cfg_blank.scripts_dir, Config::default_scripts_dir(&env));
        assert_eq!(cfg_blank.work_root, Config::default_work_root(&env));
        assert_eq!(cfg_absent.scripts_dir, Config::default_scripts_dir(&env));
        assert_eq!(cfg_absent.work_root, Config::default_work_root(&env));
    }
}

#[test]
fn environment_comes_before_defaults() {
    assert_eq!(Config::default_scripts_dir(&full_env()), FilePath::new("/opt/scripts"));
    assert_eq!(Config::default_work_root(&full_env()), FilePath::new("/mnt/work"));
    let mut env = full_env();
    env.scripts_dir = None;
    env.work_root = None;
    assert_eq!(Config::default_scripts_dir(&env), FilePath::new("/home/ann/Videos/vhs-cli"));
    assert_eq!(Config::default_work_root(&env), FilePath::new("/media/ann/scratch/Videos/vhs_upscale_work"));
}

#[test]
fn defaults_without_any_environment() {
    assert_eq!(Config::home(&no_env()), FilePath::new("/home/user"));
    assert_eq!(Config::default_scripts_dir(&no_env()), FilePath::new("/home/user/Videos/vhs-cli"));
    assert_eq!(Config::default_work_root(&no_env()), FilePath::new("/media/user/scratch/Videos/vhs_upscale_work"));
    assert_eq!(Config::without_overrides(&no_env()), Config::from_paths(&PersistedPaths::default(), &no_env()));
}

#[test]
fn overrides_are_trimmed() {
    let paths = PersistedPaths { scripts_dir: Some(" /a b \n".into()), work_root: None };
    let cfg = Config::from_paths(&paths, &no_env());
    assert_eq!(cfg.scripts_dir, FilePath::new("/a b"));
    assert_eq!(effective_path("\t /x ", FilePath::new("/d")), FilePath::new("/x"));
    assert_eq!(effective_path("\t ", FilePath::new("/d")), FilePath::new("/d"));
}

#[test]
fn everything_lies_under_its_directory() {
    let cfg = Config::without_overrides(&full_env());
    let at = |p: FilePath| String::from_utf8(p.as_bytes().to_vec()).unwrap();
    assert_eq!(cfg.v4l2_device, "/dev/v4l/by-id/usb-MACROSIL_AV_TO_USB2.0-video-index0");
    assert_eq!(cfg.max_capture_duration, "02:00:00");
    assert_eq!(at(cfg.archival_dir()), "/home/ann/Videos/captures/archival");
    assert_eq!(at(cfg.stabilized_dir()), "/home/ann/Videos/captures/stabilized");
    assert_eq!(at(cfg.viewer_dir()), "/home/ann/Videos/captures/viewer");
    assert_eq!(at(cfg.log_dir()), "/home/ann/Videos/logs");
    assert_eq!(at(cfg.capture_pgid_file()), "/home/ann/Videos/logs/capture.pgid");
    assert_eq!(at(cfg.capture_script()), "/opt/scripts/vhs_capture_ffmpeg.sh");
    assert_eq!(at(cfg.tools_dir()), "/opt/scripts/vhs-env/tools");
    assert_eq!(at(cfg.denoise_script()), "/opt/scripts/vhs_denoise.sh");
    assert_eq!(at(cfg.process_script()), "/opt/scripts/vhs_process.sh");
    assert_eq!(at(cfg.viewer_encode_script()), "/opt/scripts/vhs_viewer_encode.sh");
    assert_eq!(at(cfg.upscale_script()), "/opt/scripts/vhs_upscale.sh");
    assert_eq!(at(cfg.upscale_anime_script()), "/opt/scripts/vhs_upscale_anime.sh");
    assert_eq!(at(cfg.upscale_bw_script()), "/opt/scripts/vhs_upscale_bw.sh");
    assert_eq!(at(cfg.upscale_work_root()), "/mnt/work");
}
