//! Settings: where the library is, how to play, where metadata comes from. Paths are kept as
//! the user wrote them; `~/` and the `{root}` placeholder are expanded on use.
use crate::paths::{path_join, spec_path_join};
use crate::text::{eq_ascii_nocase, trim};
use crate::tmdb::views;
use vstd::prelude::*;

verus! {

#[derive(Debug, Clone)]
pub struct Config {
    pub library: Library,
    pub player: Player,
    pub metadata: Metadata,
    pub ui: Ui,
}

#[derive(Debug, Clone)]
pub struct Library {
    pub root: String,
    pub cache_dir: String,
    pub extensions: Vec<String>,
    pub order: Vec<String>,
}

#[derive(Debug, Clone)]
pub struct Player {
    pub command: Vec<String>,
    pub pre: Vec<String>,
    pub post: Vec<String>,
}

#[derive(Debug, Clone)]
pub struct Metadata {
    pub provider: String,
    pub api_key_file: String,
    pub languages: Vec<String>,
}

/// The window settings the library reads. The scale factor is the window's own business.
#[derive(Debug, Clone)]
pub struct Ui {
    pub fullscreen: bool,
    pub theme_file: String,
}

pub open spec fn default_extensions() -> Seq<Seq<char>> {
    seq!["mp4"@, "mkv"@, "avi"@, "m4v"@, "webm"@, "mov"@]
}

pub open spec fn default_command() -> Seq<Seq<char>> {
    seq!["mpv"@, "--fs"@, "--save-position-on-quit"@]
}

impl Default for Library {
    fn default() -> (l: Library)
        ensures
            l.root@.len() == 0,
            l.cache_dir@ == "{root}/.omavision"@,
            views(l.extensions@) == default_extensions(),
            l.order@.len() == 0,
    {
        let extensions = vec![
            "mp4".to_string(),
            "mkv".to_string(),
            "avi".to_string(),
            "m4v".to_string(),
            "webm".to_string(),
            "mov".to_string(),
        ];
        assert(views(extensions@) =~= default_extensions());
        Library { root: String::new(), cache_dir: "{root}/.omavision".to_string(), extensions, order: Vec::new() }
    }
}

impl Default for Player {
    fn default() -> (p: Player)
        ensures
            views(p.command@) == default_command(),
            p.pre@.len() == 0,
            p.post@.len() == 0,
    {
        let command = vec!["mpv".to_string(), "--fs".to_string(), "--save-position-on-quit".to_string()];
        assert(views(command@) =~= default_command());
        Player { command, pre: Vec::new(), post: Vec::new() }
    }
}

impl Default for Metadata {
    fn default() -> (m: Metadata)
        ensures
            m.provider@ == "tmdb"@,
            m.api_key_file@ == "~/.config/omavision/tmdb.key"@,
            views(m.languages@) == seq!["fr"@, "en"@],
    {
        let languages = vec!["fr".to_string(), "en".to_string()];
        assert(views(languages@) =~= seq!["fr"@, "en"@]);
        Metadata { provider: "tmdb".to_string(), api_key_file: "~/.config/omavision/tmdb.key".to_string(), languages }
    }
}

impl Default for Ui {
    fn default() -> (u: Ui)
        ensures
            u.fullscreen,
            u.theme_file@.len() == 0,
    {
        Ui { fullscreen: true, theme_file: String::new() }
    }
}

impl Default for Config {
    fn default() -> (c: Config)
        ensures
            c.library.root@.len() == 0,
            c.library.cache_dir@ == "{root}/.omavision"@,
            views(c.library.extensions@) == default_extensions(),
            c.library.order@.len() == 0,
            views(c.player.command@) == default_command(),
            c.player.pre@.len() == 0,
            c.player.post@.len() == 0,
            c.metadata.provider@ == "tmdb"@,
            c.metadata.api_key_file@ == "~/.config/omavision/tmdb.key"@,
            views(c.metadata.languages@) == seq!["fr"@, "en"@],
            c.ui.fullscreen,
            c.ui.theme_file@.len() == 0,
    {
        Config { library: Library::default(), player: Player::default(), metadata: Metadata::default(), ui: Ui::default() }
    }
}

// ---------------------------------------------------------------------------------------------
// Directories

/// `dirs::home_dir`, as a string. Nothing is claimed of the answer: it comes from the
/// environment and the user database.
#[verifier::external_body]
fn home_dir() -> Option<String> {
    dirs::home_dir().map(|p| p.to_string_lossy().into_owned())
}

/// `~/` at the front stands for the home directory, when there is one.
pub open spec fn expand_spec(s: Seq<char>, home: Option<Seq<char>>) -> Seq<char> {
    if s.len() >= 2 && s[0] == '~' && s[1] == '/' {
        match home {
            Some(h) => spec_path_join(h, s.skip(2)),
            None => s,
        }
    } else {
        s
    }
}

pub open spec fn opt_view(o: Option<&str>) -> Option<Seq<char>> {
    match o {
        Some(s) => Some(s@),
        None => None,
    }
}

pub open spec fn string_opt_view(o: Option<String>) -> Option<Seq<char>> {
    match o {
        Some(s) => Some(s@),
        None => None,
    }
}

/// `~/` expanded against the given home directory.
pub fn expand_home_in(s: &str, home: Option<&str>) -> (r: String)
    ensures
        r@ == expand_spec(s@, opt_view(home)),
{
    let cs = crate::text::chars_of(s);
    if cs.len() >= 2 && cs[0] == '~' && cs[1] == '/' {
        if let Some(h) = home {
            let rest = crate::text::string_of(&cs.as_slice()[2..cs.len()]);
            assert(rest@ =~= s@.skip(2));
            return path_join(h, rest.as_str());
        }
    }
    s.to_string()
}

/// `~/` expanded against the current home directory. Whatever the home directory is, the
/// result is the expansion against it.
pub fn expand_home(s: &str) -> (r: String)
    ensures
        exists|home: Option<Seq<char>>| r@ == expand_spec(s@, home),
{
    let h = home_dir();
    let r = match &h {
        Some(x) => expand_home_in(s, Some(x.as_str())),
        None => expand_home_in(s, None),
    };
    assert(r@ == expand_spec(s@, string_opt_view(h)));
    r
}

/// The base directory an XDG variable names when it is absolute, else `fallback` under the
/// home directory, else the working directory.
pub open spec fn xdg_base(xdg: Option<Seq<char>>, home: Option<Seq<char>>, fallback: spec_fn(Seq<char>) -> Seq<char>) -> Seq<char> {
    match xdg {
        Some(x) if crate::paths::is_absolute(x) => x,
        _ => match home {
            Some(h) => fallback(h),
            None => "."@,
        },
    }
}

pub open spec fn config_dir_spec(xdg_config_home: Option<Seq<char>>, home: Option<Seq<char>>) -> Seq<char> {
    spec_path_join(
        xdg_base(xdg_config_home, home, |h: Seq<char>| spec_path_join(h, ".config"@)),
        "omavision"@,
    )
}

pub open spec fn state_dir_spec(xdg_state_home: Option<Seq<char>>, home: Option<Seq<char>>) -> Seq<char> {
    spec_path_join(
        xdg_base(xdg_state_home, home, |h: Seq<char>| spec_path_join(spec_path_join(h, ".local"@), "state"@)),
        "omavision"@,
    )
}

/// `omavision` under `$XDG_CONFIG_HOME` when it is absolute, else under `~/.config`.
pub fn config_dir(xdg_config_home: Option<&str>, home: Option<&str>) -> (r: String)
    ensures
        r@ == config_dir_spec(opt_view(xdg_config_home), opt_view(home)),
{
    let base = match xdg_config_home {
        Some(x) if crate::paths::absolute(x) => x.to_string(),
        _ => match home {
            Some(h) => path_join(h, ".config"),
            None => ".".to_string(),
        },
    };
    path_join(base.as_str(), "omavision")
}

/// `omavision` under `$XDG_STATE_HOME` when it is absolute, else under `~/.local/state`.
pub fn state_dir(xdg_state_home: Option<&str>, home: Option<&str>) -> (r: String)
    ensures
        r@ == state_dir_spec(opt_view(xdg_state_home), opt_view(home)),
{
    let base = match xdg_state_home {
        Some(x) if crate::paths::absolute(x) => x.to_string(),
        _ => match home {
            Some(h) => {
                let local = path_join(h, ".local");
                path_join(local.as_str(), "state")
            },
            None => ".".to_string(),
        },
    };
    path_join(base.as_str(), "omavision")
}

/// `config.toml` in the config directory.
pub fn config_path(xdg_config_home: Option<&str>, home: Option<&str>) -> (r: String)
    ensures
        r@ == spec_path_join(config_dir_spec(opt_view(xdg_config_home), opt_view(home)), "config.toml"@),
{
    let d = config_dir(xdg_config_home, home);
    path_join(d.as_str(), "config.toml")
}

// ---------------------------------------------------------------------------------------------
// Derived paths

/// The placeholder for the library root in the cache directory setting.
pub open spec fn root_mark() -> Seq<char> {
    seq!['{', 'r', 'o', 'o', 't', '}']
}

/// Every `{root}` in `s` replaced by `root`, left to right (`str::replace`).
pub open spec fn replace_root(s: Seq<char>, root: Seq<char>) -> Seq<char>
    decreases s.len(),
{
    if s.len() == 0 {
        s
    } else if crate::text::starts_with(s, root_mark()) {
        root + replace_root(s.skip(6), root)
    } else {
        seq![s[0]] + replace_root(s.skip(1), root)
    }
}

pub open spec fn root_spec(c: Config, home: Option<Seq<char>>) -> Option<Seq<char>> {
    let r = trim(c.library.root@);
    if r.len() == 0 {
        None
    } else {
        Some(expand_spec(r, home))
    }
}

pub open spec fn cache_dir_spec(c: Config, home: Option<Seq<char>>) -> Option<Seq<char>> {
    match root_spec(c, home) {
        Some(root) => Some(expand_spec(replace_root(c.library.cache_dir@, root), home)),
        None => None,
    }
}

pub open spec fn theme_file_spec(c: Config, home: Option<Seq<char>>) -> Option<Seq<char>> {
    let t = trim(c.ui.theme_file@);
    if t.len() == 0 {
        None
    } else {
        Some(expand_spec(t, home))
    }
}

/// The extension, case aside, is one of the configured ones.
pub open spec fn video_spec(c: Config, path: Seq<char>) -> bool {
    match crate::paths::spec_extension(path) {
        Some(e) => exists|i: int| 0 <= i < c.library.extensions@.len() && eq_ascii_nocase(#[trigger] c.library.extensions@[i]@, e),
        None => false,
    }
}

fn replace_root_in(s: &str, root: &str) -> (r: String)
    ensures
        r@ == replace_root(s@, root@),
{
    let cs = crate::text::chars_of(s);
    let pat = crate::text::chars_of("{root}");
    proof {
        reveal_strlit("{root}");
        assert(pat@ =~= root_mark());
    }
    let mut out = String::new();
    let mut i: usize = 0;
    assert(cs@.skip(0) =~= cs@);
    while i < cs.len()
        invariant
            i <= cs@.len(),
            cs@ == s@,
            pat@ == root_mark(),
            out@ + replace_root(cs@.skip(i as int), root@) == replace_root(s@, root@),
        decreases cs@.len() - i,
    {
        let ghost rest = cs@.skip(i as int);
        let mut j: usize = 0;
        while j < 6 && j < cs.len() - i && cs[i + j] == pat[j]
            invariant
                j <= 6,
                i < cs@.len(),
                i + j <= cs@.len(),
                pat@ == root_mark(),
                forall|k: int| 0 <= k < j ==> cs@[i + k] == pat@[k],
            decreases 6 - j,
        {
            j = j + 1;
        }
        if j == 6 {
            assert(rest.take(6) =~= pat@);
            assert(rest.skip(6) =~= cs@.skip(i + 6));
            crate::text::push_str(&mut out, root);
            i = i + 6;
        } else {
            assert(!crate::text::starts_with(rest, root_mark())) by {
                if 6 <= rest.len() {
                    assert(rest.take(6)[j as int] == rest[j as int]);
                }
            }
            assert(rest.skip(1) =~= cs@.skip(i + 1));
            crate::text::push_char(&mut out, cs[i]);
            i = i + 1;
        }
    }
    assert(cs@.skip(i as int).len() == 0);
    out
}

impl Config {
    /// The library root, trimmed and with `~/` expanded against `home`; none when unset.
    pub fn root_in(&self, home: Option<&str>) -> (r: Option<String>)
        ensures
            string_opt_view(r) == root_spec(*self, opt_view(home)),
    {
        let t = crate::text::trim_str(self.library.root.as_str());
        if t.as_str().is_empty() {
            None
        } else {
            Some(expand_home_in(t.as_str(), home))
        }
    }

    /// The cache directory with `{root}` and `~/` expanded against `home`; none without a root.
    pub fn cache_dir_in(&self, home: Option<&str>) -> (r: Option<String>)
        ensures
            string_opt_view(r) == cache_dir_spec(*self, opt_view(home)),
    {
        match self.root_in(home) {
            Some(root) => {
                let s = replace_root_in(self.library.cache_dir.as_str(), root.as_str());
                Some(expand_home_in(s.as_str(), home))
            },
            None => None,
        }
    }

    /// The configured theme file with `~/` expanded against `home`; none when unset.
    pub fn theme_file_in(&self, home: Option<&str>) -> (r: Option<String>)
        ensures
            string_opt_view(r) == theme_file_spec(*self, opt_view(home)),
    {
        let t = crate::text::trim_str(self.ui.theme_file.as_str());
        if t.as_str().is_empty() {
            None
        } else {
            Some(expand_home_in(t.as_str(), home))
        }
    }

    /// The library root against the current home directory.
    pub fn root(&self) -> (r: Option<String>)
        ensures
            exists|home: Option<Seq<char>>| string_opt_view(r) == root_spec(*self, home),
    {
        let h = home_dir();
        let r = match &h {
            Some(x) => self.root_in(Some(x.as_str())),
            None => self.root_in(None),
        };
        assert(string_opt_view(r) == root_spec(*self, string_opt_view(h)));
        r
    }

    /// The cache directory against the current home directory.
    pub fn cache_dir(&self) -> (r: Option<String>)
        ensures
            exists|home: Option<Seq<char>>| string_opt_view(r) == cache_dir_spec(*self, home),
    {
        let h = home_dir();
        let r = match &h {
            Some(x) => self.cache_dir_in(Some(x.as_str())),
            None => self.cache_dir_in(None),
        };
        assert(string_opt_view(r) == cache_dir_spec(*self, string_opt_view(h)));
        r
    }

    /// The configured theme file against the current home directory.
    pub fn theme_file(&self) -> (r: Option<String>)
        ensures
            exists|home: Option<Seq<char>>| string_opt_view(r) == theme_file_spec(*self, home),
    {
        let h = home_dir();
        let r = match &h {
            Some(x) => self.theme_file_in(Some(x.as_str())),
            None => self.theme_file_in(None),
        };
        assert(string_opt_view(r) == theme_file_spec(*self, string_opt_view(h)));
        r
    }

    /// A video file is one whose extension, case aside, is configured.
    pub fn is_video(&self, path: &str) -> (r: bool)
        ensures
            r == video_spec(*self, path@),
    {
        match crate::paths::extension(path) {
            Some(e) => {
                let exts = &self.library.extensions;
                let mut i: usize = 0;
                while i < exts.len()
                    invariant
                        i <= exts@.len(),
                        exts@ == self.library.extensions@,
                        crate::paths::spec_extension(path@) == Some(e@),
                        forall|j: int| 0 <= j < i ==> !eq_ascii_nocase(#[trigger] exts@[j]@, e@),
                    decreases exts@.len() - i,
                {
                    if crate::text::eq_ignore_ascii_case(exts[i].as_str(), e.as_str()) {
                        return true;
                    }
                    i = i + 1;
                }
                false
            },
            None => false,
        }
    }
}

} // verus!
