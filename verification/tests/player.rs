use omavision_core::config::Player;
use omavision_core::player::{hook, play_plan, player_command, Stage};

#[test]
fn the_file_is_the_player_last_argument() {
    let p = Player::default();
    let c = player_command(&p, "/lib/films/x.mkv").unwrap();
    assert_eq!(c.program, "mpv");
    assert_eq!(c.args, vec!["--fs", "--save-position-on-quit", "/lib/films/x.mkv"]);
}

#[test]
fn an_empty_command_plays_nothing_and_empty_hooks_run_nothing() {
    let p = Player { command: vec![], pre: vec![], post: vec!["notify-send".into(), "done".into()] };
    assert!(player_command(&p, "x").is_none());
    assert!(hook(&p.pre).is_none());
    let post = hook(&p.post).unwrap();
    assert_eq!(post.program, "notify-send");
    assert_eq!(post.args, vec!["done"]);
}

#[test]
fn a_playback_runs_pre_then_the_player_then_post() {
    let p = Player { command: vec!["mpv".into()], pre: vec!["movie-mode".into(), "on".into()], post: vec!["movie-mode".into(), "off".into()] };
    let plan = play_plan(&p, "/x.mkv");
    assert!(!plan.no_player);
    let stages: Vec<Stage> = plan.runs.iter().map(|r| r.0).collect();
    assert_eq!(stages, vec![Stage::Pre, Stage::Play, Stage::Post]);
    assert_eq!(plan.runs[2].1.args, vec!["off"]);
    let p = Player { command: vec![], pre: vec![], post: vec!["movie-mode".into(), "off".into()] };
    let plan = play_plan(&p, "/x.mkv");
    assert!(plan.no_player);
    assert_eq!(plan.runs.iter().map(|r| r.0).collect::<Vec<_>>(), vec![Stage::Post]);
}
