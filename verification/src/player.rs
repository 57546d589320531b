//! Playback is delegated to an external player wrapped in pre and post hooks. What runs is
//! decided here; running it is the caller's part.
use crate::config::Player;
use crate::tmdb::views;
use vstd::prelude::*;

verus! {

/// A program and its arguments.
#[derive(Debug, Clone)]
pub struct Command {
    pub program: String,
    pub args: Vec<String>,
}

/// The first word is the program, the rest its arguments; an empty list runs nothing.
pub open spec fn command_spec(argv: Seq<String>, c: Option<Command>) -> bool {
    match c {
        Some(c) => argv.len() > 0 && c.program == argv[0] && views(c.args@) == views(argv.drop_first()),
        None => argv.len() == 0,
    }
}

fn split_command(argv: &Vec<String>) -> (r: Option<Command>)
    ensures
        command_spec(argv@, r),
{
    if argv.len() == 0 {
        return None;
    }
    let mut args: Vec<String> = Vec::new();
    let mut i: usize = 1;
    while i < argv.len()
        invariant
            1 <= i <= argv@.len(),
            views(args@) == views(argv@.subrange(1, i as int)),
        decreases argv@.len() - i,
    {
        let ghost before = args@;
        args.push(argv[i].clone());
        assert(args@ == before.push(argv@[i as int]));
        assert(views(args@) =~= views(before).push(argv@[i as int]@));
        assert(views(args@) =~= views(argv@.subrange(1, i + 1)));
        i = i + 1;
    }
    assert(argv@.subrange(1, i as int) =~= argv@.drop_first());
    Some(Command { program: argv[0].clone(), args })
}

/// A hook: `pre` or `post` as configured; none when the list is empty.
pub fn hook(argv: &Vec<String>) -> (r: Option<Command>)
    ensures
        command_spec(argv@, r),
{
    split_command(argv)
}

/// The player command with the file as its last argument; none when `player.command` is
/// empty, which is an error for the caller to report.
pub fn player_command(cfg: &Player, file: &str) -> (r: Option<Command>)
    ensures
        match r {
            Some(c) => cfg.command@.len() > 0 && c.program == cfg.command@[0]
                && views(c.args@) == views(cfg.command@.drop_first()).push(file@),
            None => cfg.command@.len() == 0,
        },
{
    match split_command(&cfg.command) {
        Some(mut c) => {
            let ghost before = c.args@;
            c.args.push(file.to_string());
            assert(views(c.args@) =~= views(before).push(file@));
            Some(c)
        },
        None => None,
    }
}


/// Which part of a playback a command is.
#[derive(Debug, Clone, Copy, PartialEq, Eq, Structural)]
pub enum Stage {
    Pre,
    Play,
    Post,
}

/// The commands of one playback, in the order they run. Each runs whatever came of the ones
/// before: `post` runs even when the player fails to start, because it undoes display changes.
#[derive(Debug, Clone)]
pub struct Plan {
    pub runs: Vec<(Stage, Command)>,
    /// `player.command` is empty: the playback is an error, reported after the hooks ran.
    pub no_player: bool,
}

/// The hooks and the player as configured, pre first and post last.
pub fn play_plan(cfg: &Player, file: &str) -> (p: Plan)
    ensures
        p.no_player == (cfg.command@.len() == 0),
        p.runs@.len() == (if cfg.pre@.len() > 0 { 1int } else { 0int }) + (if cfg.command@.len() > 0 { 1int } else { 0int })
            + (if cfg.post@.len() > 0 { 1int } else { 0int }),
        forall|i: int, j: int| 0 <= i < j < p.runs@.len() ==> stage_rank(#[trigger] p.runs@[i].0) < stage_rank(#[trigger] p.runs@[j].0),
        forall|i: int| 0 <= i < p.runs@.len() ==> match #[trigger] p.runs@[i].0 {
            Stage::Pre => command_spec(cfg.pre@, Some(p.runs@[i].1)),
            Stage::Post => command_spec(cfg.post@, Some(p.runs@[i].1)),
            Stage::Play => p.runs@[i].1.program == cfg.command@[0] && views(p.runs@[i].1.args@) == views(
                cfg.command@.drop_first(),
            ).push(file@),
        },
{
    let mut runs: Vec<(Stage, Command)> = Vec::new();
    if let Some(c) = hook(&cfg.pre) {
        runs.push((Stage::Pre, c));
    }
    let player = player_command(cfg, file);
    let no_player = player.is_none();
    if let Some(c) = player {
        runs.push((Stage::Play, c));
    }
    if let Some(c) = hook(&cfg.post) {
        runs.push((Stage::Post, c));
    }
    Plan { runs, no_player }
}

pub open spec fn stage_rank(s: Stage) -> int {
    match s {
        Stage::Pre => 0,
        Stage::Play => 1,
        Stage::Post => 2,
    }
}

} // verus!
