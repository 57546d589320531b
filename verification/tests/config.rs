use omavision_core::config::{config_dir, config_path, expand_home_in, state_dir, Config};

#[test]
fn cache_dir_expands_root_placeholder() {
    let mut c = Config::default();
    c.library.root = "/media/movies".into();
    assert_eq!(c.cache_dir_in(Some("/home/me")).unwrap(), "/media/movies/.omavision");
}

#[test]
fn defaults_match_the_documented_settings() {
    let c = Config::default();
    assert_eq!(c.library.root, "");
    assert_eq!(c.library.cache_dir, "{root}/.omavision");
    assert_eq!(c.library.extensions, vec!["mp4", "mkv", "avi", "m4v", "webm", "mov"]);
    assert!(c.library.order.is_empty());
    assert_eq!(c.player.command, vec!["mpv", "--fs", "--save-position-on-quit"]);
    assert!(c.player.pre.is_empty() && c.player.post.is_empty());
    assert_eq!(c.metadata.provider, "tmdb");
    assert_eq!(c.metadata.api_key_file, "~/.config/omavision/tmdb.key");
    assert_eq!(c.metadata.languages, vec!["fr", "en"]);
    assert!(c.ui.fullscreen);
    assert_eq!(c.ui.theme_file, "");
}

#[test]
fn an_unset_root_has_no_cache_dir() {
    let mut c = Config::default();
    c.library.root = "   ".into();
    assert_eq!(c.root_in(Some("/home/me")), None);
    assert_eq!(c.cache_dir_in(Some("/home/me")), None);
    c.library.root = " ~/Videos ".into();
    assert_eq!(c.root_in(Some("/home/me")).as_deref(), Some("/home/me/Videos"));
    c.library.cache_dir = "~/cache/{root}/{root}".into();
    assert_eq!(c.cache_dir_in(Some("/home/me")).as_deref(), Some("/home/me/cache//home/me/Videos//home/me/Videos"));
}

#[test]
fn home_is_expanded_only_at_the_front() {
    assert_eq!(expand_home_in("~/x", Some("/h")), "/h/x");
    assert_eq!(expand_home_in("~/x", None), "~/x");
    assert_eq!(expand_home_in("/a/~/x", Some("/h")), "/a/~/x");
    assert_eq!(expand_home_in("~x", Some("/h")), "~x");
}

#[test]
fn video_files_go_by_extension_case_aside() {
    let c = Config::default();
    assert!(c.is_video("films/a.MKV"));
    assert!(c.is_video("a.b.mp4"));
    assert!(!c.is_video("films/notes.txt"));
    assert!(!c.is_video("films/.mkv"));
    assert!(!c.is_video("films/mkv"));
}

#[test]
fn xdg_directories_win_when_absolute() {
    assert_eq!(config_dir(Some("/x/conf"), Some("/h")), "/x/conf/omavision");
    assert_eq!(config_dir(Some("rel"), Some("/h")), "/h/.config/omavision");
    assert_eq!(config_dir(None, None), "./omavision");
    assert_eq!(state_dir(None, Some("/h")), "/h/.local/state/omavision");
    assert_eq!(config_path(None, Some("/h")), "/h/.config/omavision/config.toml");
}

#[test]
fn theme_file_is_trimmed_and_expanded() {
    let mut c = Config::default();
    assert_eq!(c.theme_file_in(Some("/h")), None);
    c.ui.theme_file = " ~/t/colors.toml ".into();
    assert_eq!(c.theme_file_in(Some("/h")).as_deref(), Some("/h/t/colors.toml"));
}
