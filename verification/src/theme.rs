//! Reads the Omarchy theme (`colors.toml`) and resolves it into the palette the UI uses.
//! Tokens the theme does not name are either taken from the built-in palette or mixed from
//! the background and foreground; a mix is described here and computed by the window.
use vstd::prelude::*;

verus! {

#[derive(Debug, Clone, Copy, PartialEq, Eq, Structural)]
pub struct Rgb(pub u8, pub u8, pub u8);

#[derive(Debug, Clone, Copy, PartialEq, Eq, Structural)]
pub enum Mode {
    Dark,
    Light,
}

#[derive(Debug, Clone, Copy, PartialEq, Eq, Structural)]
pub struct Palette {
    pub mode: Mode,
    pub bg: Rgb,
    pub surface: Rgb,
    pub surface2: Rgb,
    pub text: Rgb,
    pub text2: Rgb,
    pub muted: Rgb,
    pub accent: Rgb,
    pub accent2: Rgb,
}

pub open spec fn builtin_spec() -> Palette {
    Palette {
        mode: Mode::Dark,
        bg: Rgb(0x1a, 0x1b, 0x26),
        surface: Rgb(0x24, 0x28, 0x3b),
        surface2: Rgb(0x29, 0x2e, 0x42),
        text: Rgb(0xa9, 0xb1, 0xd6),
        text2: Rgb(0x56, 0x5f, 0x89),
        muted: Rgb(0x41, 0x48, 0x68),
        accent: Rgb(0x7a, 0xa2, 0xf7),
        accent2: Rgb(0xad, 0x8e, 0xe6),
    }
}

impl Palette {
    /// The built-in palette, used when no Omarchy theme is found. Tokyo Night.
    pub fn builtin() -> (p: Palette)
        ensures
            p == builtin_spec(),
    {
        Palette {
            mode: Mode::Dark,
            bg: Rgb(0x1a, 0x1b, 0x26),
            surface: Rgb(0x24, 0x28, 0x3b),
            surface2: Rgb(0x29, 0x2e, 0x42),
            text: Rgb(0xa9, 0xb1, 0xd6),
            text2: Rgb(0x56, 0x5f, 0x89),
            muted: Rgb(0x41, 0x48, 0x68),
            accent: Rgb(0x7a, 0xa2, 0xf7),
            accent2: Rgb(0xad, 0x8e, 0xe6),
        }
    }
}

// ---------------------------------------------------------------------------------------------
// Where the theme lives

pub open spec fn candidates_spec(xdg_state_home: Option<Seq<char>>, home: Option<Seq<char>>) -> Seq<Seq<char>> {
    let a: Seq<Seq<char>> = match xdg_state_home {
        Some(p) if crate::paths::is_absolute(p) => seq![
            crate::paths::spec_path_join(p, "omarchy/current/theme/colors.toml"@),
        ],
        _ => seq![],
    };
    let b: Seq<Seq<char>> = match home {
        Some(h) => seq![
            crate::paths::spec_path_join(h, ".local/state/omarchy/current/theme/colors.toml"@),
            crate::paths::spec_path_join(h, ".config/omarchy/current/theme/colors.toml"@),
        ],
        None => seq![],
    };
    a + b
}

/// Candidate locations of the active Omarchy theme, most current first: under
/// `$XDG_STATE_HOME` when it is absolute, then under `~/.local/state`, then under `~/.config`.
pub fn candidate_files(xdg_state_home: Option<&str>, home: Option<&str>) -> (v: Vec<String>)
    ensures
        crate::tmdb::views(v@) == candidates_spec(
            crate::config::opt_view(xdg_state_home),
            crate::config::opt_view(home),
        ),
{
    let mut v: Vec<String> = Vec::new();
    if let Some(p) = xdg_state_home {
        if crate::paths::absolute(p) {
            v.push(crate::paths::path_join(p, "omarchy/current/theme/colors.toml"));
        }
    }
    if let Some(h) = home {
        v.push(crate::paths::path_join(h, ".local/state/omarchy/current/theme/colors.toml"));
        v.push(crate::paths::path_join(h, ".config/omarchy/current/theme/colors.toml"));
    }
    assert(crate::tmdb::views(v@) =~= candidates_spec(
        crate::config::opt_view(xdg_state_home),
        crate::config::opt_view(home),
    ));
    v
}

/// The first candidate that is a file, given which of them are.
pub open spec fn first_present(cands: Seq<Seq<char>>, present: Seq<bool>) -> Option<Seq<char>>
    decreases cands.len(),
{
    if cands.len() == 0 || present.len() == 0 {
        None
    } else if present[0] {
        Some(cands[0])
    } else {
        first_present(cands.drop_first(), present.drop_first())
    }
}

/// The first candidate that exists. `present[i]` tells whether `candidates[i]` is a file; a
/// candidate with no such flag counts as absent.
pub fn find_file(candidates: &Vec<String>, present: &Vec<bool>) -> (r: Option<String>)
    ensures
        crate::config::string_opt_view(r) == first_present(crate::tmdb::views(candidates@), present@),
{
    let ghost cs = crate::tmdb::views(candidates@);
    let mut i: usize = 0;
    assert(cs.skip(0) =~= cs);
    assert(present@.skip(0) =~= present@);
    while i < candidates.len() && i < present.len()
        invariant
            i <= candidates@.len(),
            i <= present@.len(),
            cs == crate::tmdb::views(candidates@),
            first_present(cs, present@) == first_present(cs.skip(i as int), present@.skip(i as int)),
        decreases candidates@.len() - i,
    {
        assert(cs.skip(i as int).drop_first() =~= cs.skip(i + 1));
        assert(present@.skip(i as int).drop_first() =~= present@.skip(i + 1));
        if present[i] {
            return Some(candidates[i].clone());
        }
        i = i + 1;
    }
    None
}

/// The directory to watch for theme changes: the parent of the `theme` dir, because Omarchy
/// replaces that directory wholesale.
pub fn watch_dir(file: &str) -> (r: Option<String>)
    ensures
        crate::config::string_opt_view(r) == match crate::paths::spec_parent(file@) {
            Some(p) => crate::paths::spec_parent(p),
            None => None,
        },
{
    match crate::paths::parent(file) {
        Some(p) => crate::paths::parent(p.as_str()),
        None => None,
    }
}

// ---------------------------------------------------------------------------------------------
// Colours

pub open spec fn hex_digit_value(c: char) -> Option<nat> {
    if '0' <= c <= '9' {
        Some(((c as u32) - 48) as nat)
    } else if 'a' <= c <= 'f' {
        Some(((c as u32) - 87) as nat)
    } else if 'A' <= c <= 'F' {
        Some(((c as u32) - 55) as nat)
    } else {
        None
    }
}

pub open spec fn all_hex(h: Seq<char>) -> bool {
    forall|i: int| 0 <= i < h.len() ==> (#[trigger] hex_digit_value(h[i])) is Some
}

pub open spec fn hex_pair(a: char, b: char) -> u8 {
    (hex_digit_value(a).unwrap() * 16 + hex_digit_value(b).unwrap()) as u8
}

/// `#rrggbb`, white space around it aside. Anything else (Hyprland gradients, names) is not a
/// colour.
pub open spec fn hex_spec(s: Seq<char>) -> Option<Rgb> {
    let t = crate::text::trim(s);
    if t.len() == 7 && t[0] == '#' && all_hex(t.drop_first()) {
        Some(Rgb(hex_pair(t[1], t[2]), hex_pair(t[3], t[4]), hex_pair(t[5], t[6])))
    } else {
        None
    }
}

fn hex_value(c: char) -> (r: Option<u8>)
    ensures
        match r {
            Some(v) => hex_digit_value(c) == Some(v as nat) && v < 16,
            None => hex_digit_value(c) is None,
        },
{
    if '0' <= c && c <= '9' {
        Some((c as u8) - 48)
    } else if 'a' <= c && c <= 'f' {
        Some((c as u8) - 87)
    } else if 'A' <= c && c <= 'F' {
        Some((c as u8) - 55)
    } else {
        None
    }
}

/// `#rrggbb` only. Anything else (Hyprland gradients, names) is ignored.
pub fn parse_hex(s: &str) -> (r: Option<Rgb>)
    ensures
        r == hex_spec(s@),
{
    let t = crate::text::trim_str(s);
    let cs = crate::text::chars_of(t.as_str());
    if cs.len() != 7 || cs[0] != '#' {
        return None;
    }
    let mut d: Vec<u8> = Vec::new();
    let mut i: usize = 1;
    while i < 7
        invariant
            1 <= i <= 7,
            cs@.len() == 7,
            cs@ == crate::text::trim(s@),
            d@.len() == i - 1,
            forall|j: int| 1 <= j < i ==> hex_digit_value(#[trigger] cs@[j]) == Some(d@[j - 1] as nat),
            forall|j: int| 0 <= j < d@.len() ==> #[trigger] d@[j] < 16,
        decreases 7 - i,
    {
        match hex_value(cs[i]) {
            Some(v) => d.push(v),
            None => {
                assert(!all_hex(cs@.drop_first())) by {
                    assert(cs@.drop_first()[i - 1] == cs@[i as int]);
                }
                return None;
            },
        }
        i = i + 1;
    }
    proof {
        assert forall|j: int| 0 <= j < cs@.drop_first().len() implies (#[trigger] hex_digit_value(cs@.drop_first()[j])) is Some by {
            assert(cs@.drop_first()[j] == cs@[j + 1]);
        }
        assert(hex_digit_value(cs@[1]) == Some(d@[0] as nat));
        assert(hex_digit_value(cs@[2]) == Some(d@[1] as nat));
        assert(hex_digit_value(cs@[3]) == Some(d@[2] as nat));
        assert(hex_digit_value(cs@[4]) == Some(d@[3] as nat));
        assert(hex_digit_value(cs@[5]) == Some(d@[4] as nat));
        assert(hex_digit_value(cs@[6]) == Some(d@[5] as nat));
    }
    Some(Rgb(d[0] * 16 + d[1], d[2] * 16 + d[3], d[4] * 16 + d[5]))
}


// ---------------------------------------------------------------------------------------------
// Resolving a theme

/// A palette token: named by the theme, or a mix that moves `from` toward `to` by `percent`
/// hundredths, component by component.
#[derive(Debug, Clone, Copy, PartialEq, Eq, Structural)]
pub enum Shade {
    Named(Rgb),
    Toward { from: Rgb, to: Rgb, percent: u8 },
}

/// The palette a theme resolves to, before any mix is computed.
#[derive(Debug, Clone, Copy, PartialEq, Eq, Structural)]
pub struct Resolved {
    pub mode: Mode,
    pub bg: Rgb,
    pub text: Rgb,
    pub surface: Shade,
    pub surface2: Shade,
    pub text2: Shade,
    pub muted: Shade,
    pub accent: Rgb,
    pub accent2: Rgb,
}

/// The value the theme gives a key.
pub open spec fn value_of(keys: Seq<(Seq<char>, Seq<char>)>, name: Seq<char>) -> Option<Seq<char>>
    decreases keys.len(),
{
    if keys.len() == 0 {
        None
    } else if keys[0].0 == name {
        Some(keys[0].1)
    } else {
        value_of(keys.drop_first(), name)
    }
}

/// The colour of the first of `names` that the theme sets to a `#rrggbb` value.
pub open spec fn color_of(keys: Seq<(Seq<char>, Seq<char>)>, names: Seq<Seq<char>>) -> Option<Rgb>
    decreases names.len(),
{
    if names.len() == 0 {
        None
    } else {
        match value_of(keys, names[0]) {
            Some(v) if hex_spec(v) is Some => hex_spec(v),
            _ => color_of(keys, names.drop_first()),
        }
    }
}

pub open spec fn shade_or(c: Option<Rgb>, s: Shade) -> Shade {
    match c {
        Some(x) => Shade::Named(x),
        None => s,
    }
}

pub open spec fn rgb_or(c: Option<Rgb>, d: Rgb) -> Rgb {
    match c {
        Some(x) => x,
        None => d,
    }
}

/// `mode`, else `theme_type`, when it says light or dark; else light when the legacy empty
/// `light.mode` file lies beside the theme file; else light when the background is bright.
pub open spec fn mode_spec(keys: Seq<(Seq<char>, Seq<char>)>, light_marker: bool, bg: Rgb) -> Mode {
    let m = match value_of(keys, "mode"@) {
        Some(v) => Some(v),
        None => value_of(keys, "theme_type"@),
    };
    if m == Some("light"@) {
        Mode::Light
    } else if m == Some("dark"@) {
        Mode::Dark
    } else if light_marker {
        Mode::Light
    } else if bg.0 + bg.1 + bg.2 > 382 {
        Mode::Light
    } else {
        Mode::Dark
    }
}

pub open spec fn resolve_spec(keys: Seq<(Seq<char>, Seq<char>)>, light_marker: bool) -> Resolved {
    let fallback = builtin_spec();
    let bg = rgb_or(color_of(keys, seq!["background"@, "bg"@, "color0"@]), fallback.bg);
    let fg = rgb_or(color_of(keys, seq!["foreground"@, "fg"@, "color7"@]), fallback.text);
    let muted = shade_or(
        color_of(keys, seq!["muted"@, "color8"@, "dark_foreground"@]),
        Shade::Toward { from: bg, to: fg, percent: 30 },
    );
    Resolved {
        mode: mode_spec(keys, light_marker, bg),
        bg,
        text: fg,
        surface: shade_or(
            color_of(keys, seq!["lighter_background"@, "lighter_bg"@]),
            Shade::Toward { from: bg, to: fg, percent: 8 },
        ),
        surface2: shade_or(
            color_of(keys, seq!["selection"@, "selection_background"@, "color8"@]),
            Shade::Named(bg),
        ),
        text2: shade_or(
            color_of(keys, seq!["dark_foreground"@, "dark_fg"@]),
            Shade::Toward { from: fg, to: bg, percent: 40 },
        ),
        muted,
        accent: rgb_or(color_of(keys, seq!["accent"@, "blue"@, "color4"@]), fallback.accent),
        accent2: rgb_or(color_of(keys, seq!["magenta"@, "color5"@, "purple"@]), fallback.accent2),
    }
}

pub open spec fn pairs_view(keys: Seq<(String, String)>) -> Seq<(Seq<char>, Seq<char>)> {
    keys.map_values(|p: (String, String)| (p.0@, p.1@))
}

fn value_in<'a>(keys: &'a Vec<(String, String)>, name: &str) -> (r: Option<&'a String>)
    ensures
        match r {
            Some(v) => value_of(pairs_view(keys@), name@) == Some(v@),
            None => value_of(pairs_view(keys@), name@) is None,
        },
{
    let ghost kv = pairs_view(keys@);
    let mut i: usize = 0;
    assert(kv.skip(0) =~= kv);
    while i < keys.len()
        invariant
            i <= keys@.len(),
            kv == pairs_view(keys@),
            value_of(kv, name@) == value_of(kv.skip(i as int), name@),
        decreases keys@.len() - i,
    {
        assert(kv.skip(i as int).drop_first() =~= kv.skip(i + 1));
        assert(kv.skip(i as int)[0] == (keys@[i as int].0@, keys@[i as int].1@));
        if crate::text::str_eq(keys[i].0.as_str(), name) {
            return Some(&keys[i].1);
        }
        i = i + 1;
    }
    None
}

fn color_in(keys: &Vec<(String, String)>, names: &Vec<&str>) -> (r: Option<Rgb>)
    ensures
        r == color_of(pairs_view(keys@), names@.map_values(|n: &str| n@)),
{
    let ghost ns = names@.map_values(|n: &str| n@);
    let ghost kv = pairs_view(keys@);
    let mut i: usize = 0;
    assert(ns.skip(0) =~= ns);
    while i < names.len()
        invariant
            i <= names@.len(),
            ns == names@.map_values(|n: &str| n@),
            kv == pairs_view(keys@),
            color_of(kv, ns) == color_of(kv, ns.skip(i as int)),
        decreases names@.len() - i,
    {
        assert(ns.skip(i as int).drop_first() =~= ns.skip(i + 1));
        assert(ns.skip(i as int)[0] == names@[i as int]@);
        if let Some(v) = value_in(keys, names[i]) {
            if let Some(c) = parse_hex(v.as_str()) {
                return Some(c);
            }
        }
        i = i + 1;
    }
    None
}

/// The palette a theme's string entries resolve to. Each token takes the first of its names
/// that holds a `#rrggbb` colour; the ones none names fall back to the built-in palette, to
/// the background, or to a mix of the background and foreground. `light_marker` tells
/// whether the legacy `light.mode` file lies beside the theme file.
pub fn resolve(keys: &Vec<(String, String)>, light_marker: bool) -> (r: Resolved)
    ensures
        r == resolve_spec(pairs_view(keys@), light_marker),
{
    let ghost kv = pairs_view(keys@);
    let fallback = Palette::builtin();
    let n_bg: Vec<&str> = vec!["background", "bg", "color0"];
    let n_fg: Vec<&str> = vec!["foreground", "fg", "color7"];
    let n_surface: Vec<&str> = vec!["lighter_background", "lighter_bg"];
    let n_muted: Vec<&str> = vec!["muted", "color8", "dark_foreground"];
    let n_surface2: Vec<&str> = vec!["selection", "selection_background", "color8"];
    let n_text2: Vec<&str> = vec!["dark_foreground", "dark_fg"];
    let n_accent: Vec<&str> = vec!["accent", "blue", "color4"];
    let n_accent2: Vec<&str> = vec!["magenta", "color5", "purple"];
    assert(n_bg@.map_values(|n: &str| n@) =~= seq!["background"@, "bg"@, "color0"@]);
    assert(n_fg@.map_values(|n: &str| n@) =~= seq!["foreground"@, "fg"@, "color7"@]);
    assert(n_surface@.map_values(|n: &str| n@) =~= seq!["lighter_background"@, "lighter_bg"@]);
    assert(n_muted@.map_values(|n: &str| n@) =~= seq!["muted"@, "color8"@, "dark_foreground"@]);
    assert(n_surface2@.map_values(|n: &str| n@) =~= seq!["selection"@, "selection_background"@, "color8"@]);
    assert(n_text2@.map_values(|n: &str| n@) =~= seq!["dark_foreground"@, "dark_fg"@]);
    assert(n_accent@.map_values(|n: &str| n@) =~= seq!["accent"@, "blue"@, "color4"@]);
    assert(n_accent2@.map_values(|n: &str| n@) =~= seq!["magenta"@, "color5"@, "purple"@]);
    let bg = match color_in(keys, &n_bg) {
        Some(c) => c,
        None => fallback.bg,
    };
    let fg = match color_in(keys, &n_fg) {
        Some(c) => c,
        None => fallback.text,
    };
    let m = match value_in(keys, "mode") {
        Some(v) => Some(v),
        None => value_in(keys, "theme_type"),
    };
    let mode = match m {
        Some(v) if crate::text::str_eq(v.as_str(), "light") => Mode::Light,
        Some(v) if crate::text::str_eq(v.as_str(), "dark") => Mode::Dark,
        _ => if light_marker {
            Mode::Light
        } else if bg.0 as u32 + bg.1 as u32 + bg.2 as u32 > 382 {
            Mode::Light
        } else {
            Mode::Dark
        },
    };
    let surface = match color_in(keys, &n_surface) {
        Some(c) => Shade::Named(c),
        None => Shade::Toward { from: bg, to: fg, percent: 8 },
    };
    let muted = match color_in(keys, &n_muted) {
        Some(c) => Shade::Named(c),
        None => Shade::Toward { from: bg, to: fg, percent: 30 },
    };
    let surface2 = match color_in(keys, &n_surface2) {
        Some(c) => Shade::Named(c),
        None => Shade::Named(bg),
    };
    let text2 = match color_in(keys, &n_text2) {
        Some(c) => Shade::Named(c),
        None => Shade::Toward { from: fg, to: bg, percent: 40 },
    };
    let accent = match color_in(keys, &n_accent) {
        Some(c) => c,
        None => fallback.accent,
    };
    let accent2 = match color_in(keys, &n_accent2) {
        Some(c) => c,
        None => fallback.accent2,
    };
    Resolved { mode, bg, text: fg, surface, surface2, text2, muted, accent, accent2 }
}

// ---------------------------------------------------------------------------------------------
// Reading a theme file's text

#[verifier::external_type_specification]
#[verifier::external_body]
pub struct ExTomlError(toml::de::Error);

/// What `toml::from_str::<toml::Table>` gives for a text, entry by entry: each top-level key
/// with its value when that value is a string. None when the text is not TOML.
pub uninterp spec fn spec_toml_entries(text: Seq<char>) -> Option<Seq<(Seq<char>, Option<Seq<char>>)>>;

pub open spec fn entries_view(v: Seq<(String, Option<String>)>) -> Seq<(Seq<char>, Option<Seq<char>>)> {
    v.map_values(|e: (String, Option<String>)| (e.0@, crate::config::string_opt_view(e.1)))
}

/// `toml::from_str::<toml::Table>`, each top-level entry with its value as a string when it
/// is one (`Value::as_str`). Claimed: the entries are the name above applied to the text,
/// which they depend on alone; an error comes exactly when the name is none.
#[verifier::external_body]
fn toml_entries(text: &str) -> (r: Result<Vec<(String, Option<String>)>, toml::de::Error>)
    ensures
        match r {
            Ok(v) => spec_toml_entries(text@) == Some(entries_view(v@)),
            Err(_) => spec_toml_entries(text@) is None,
        },
{
    let table: toml::Table = toml::from_str(text)?;
    Ok(table.into_iter().map(|(k, v)| (k, v.as_str().map(String::from))).collect())
}

/// The parser's own description of an error (its `Display`). Nothing is claimed of the text.
#[verifier::external_body]
fn toml_message(e: &toml::de::Error) -> String {
    e.to_string()
}

/// A theme file that is not TOML, with the parser's description.
#[derive(Debug, Clone)]
pub struct ThemeError {
    pub message: String,
}

/// The string entries, in order.
pub open spec fn string_entries(e: Seq<(Seq<char>, Option<Seq<char>>)>) -> Seq<(Seq<char>, Seq<char>)>
    decreases e.len(),
{
    if e.len() == 0 {
        seq![]
    } else {
        let rest = string_entries(e.drop_last());
        match e.last().1 {
            Some(v) => rest.push((e.last().0, v)),
            None => rest,
        }
    }
}

/// The palette a theme file's text resolves to; an error when the text is not TOML.
/// `light_marker` tells whether the legacy `light.mode` file lies beside the theme file.
pub fn parse(text: &str, light_marker: bool) -> (r: Result<Resolved, ThemeError>)
    ensures
        match r {
            Ok(p) => spec_toml_entries(text@) is Some && p == resolve_spec(
                string_entries(spec_toml_entries(text@).unwrap()),
                light_marker,
            ),
            Err(_) => spec_toml_entries(text@) is None,
        },
{
    match toml_entries(text) {
        Err(e) => Err(ThemeError { message: toml_message(&e) }),
        Ok(entries) => {
            let ghost ev = entries_view(entries@);
            let mut keys: Vec<(String, String)> = Vec::new();
            let mut i: usize = 0;
            while i < entries.len()
                invariant
                    i <= entries@.len(),
                    ev == entries_view(entries@),
                    pairs_view(keys@) == string_entries(ev.take(i as int)),
                decreases entries@.len() - i,
            {
                proof {
                    assert(ev.take(i + 1).drop_last() =~= ev.take(i as int));
                    assert(ev.take(i + 1).last() == ev[i as int]);
                }
                if let Some(v) = &entries[i].1 {
                    let ghost before = keys@;
                    keys.push((entries[i].0.clone(), v.clone()));
                    assert(pairs_view(keys@) =~= pairs_view(before).push((entries@[i as int].0@, v@)));
                }
                i = i + 1;
            }
            assert(ev.take(i as int) =~= ev);
            Ok(resolve(&keys, light_marker))
        },
    }
}


/// A theme that names nothing resolves to the built-in colours, dark, with the selection on
/// the background and the other tokens it does not name mixed from the built-in background
/// and text.
pub proof fn law_an_empty_theme_resolves_to_the_builtin_colours()
    ensures
        ({
            let r = resolve_spec(seq![], false);
            let b = builtin_spec();
            &&& r.mode == Mode::Dark
            &&& r.bg == b.bg
            &&& r.text == b.text
            &&& r.accent == b.accent
            &&& r.accent2 == b.accent2
            &&& r.surface == Shade::Toward { from: b.bg, to: b.text, percent: 8 }
            &&& r.muted == Shade::Toward { from: b.bg, to: b.text, percent: 30 }
            &&& r.surface2 == Shade::Named(b.bg)
            &&& r.text2 == Shade::Toward { from: b.text, to: b.bg, percent: 40 }
        }),
{
    let e: Seq<(Seq<char>, Seq<char>)> = seq![];
    assert forall|names: Seq<Seq<char>>| #[trigger] color_of(e, names) is None by {
        lemma_color_of_nothing(names);
    }
}

proof fn lemma_color_of_nothing(names: Seq<Seq<char>>)
    ensures
        color_of(seq![], names) is None,
    decreases names.len(),
{
    if names.len() > 0 {
        lemma_color_of_nothing(names.drop_first());
    }
}

/// A mode the theme states wins over the `light.mode` marker and over guessing from the
/// background; without a stated mode, the marker means light.
pub proof fn law_a_stated_mode_wins(keys: Seq<(Seq<char>, Seq<char>)>, light_marker: bool)
    ensures
        value_of(keys, "mode"@) == Some("light"@) ==> resolve_spec(keys, light_marker).mode == Mode::Light,
        value_of(keys, "mode"@) == Some("dark"@) ==> resolve_spec(keys, light_marker).mode == Mode::Dark,
        value_of(keys, "mode"@) is None && value_of(keys, "theme_type"@) is None ==> resolve_spec(keys, true).mode
            == Mode::Light,
{
    reveal_strlit("light");
    reveal_strlit("dark");
    assert("light"@ != "dark"@) by {
        assert("light"@[0] != "dark"@[0]);
    }
}

} // verus!
