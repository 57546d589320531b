use omavision_core::theme::{candidate_files, find_file, parse, parse_hex, resolve, watch_dir, Mode, Palette, Resolved, Rgb, Shade};

/// The window's mix: `from` moved toward `to` by `percent` hundredths, in `f32`.
fn shade(s: Shade) -> Rgb {
    match s {
        Shade::Named(c) => c,
        Shade::Toward { from, to, percent } => {
            let t = percent as f32 / 100.0;
            let mix = |a: u8, b: u8| (a as f32 + (b as f32 - a as f32) * t) as u8;
            Rgb(mix(from.0, to.0), mix(from.1, to.1), mix(from.2, to.2))
        }
    }
}

fn palette(r: Resolved) -> Palette {
    Palette {
        mode: r.mode,
        bg: r.bg,
        surface: shade(r.surface),
        surface2: shade(r.surface2),
        text: r.text,
        text2: shade(r.text2),
        muted: shade(r.muted),
        accent: r.accent,
        accent2: r.accent2,
    }
}

const TOKYO: &str = r##"
mode = "dark"
accent = "#7aa2f7"
selection = "#292e42"
muted = "#414868"
background = "#1a1b26"
dark_background = "#13141c"
lighter_background = "#24283b"
foreground = "#a9b1d6"
dark_foreground = "#565f89"
bright_foreground = "#c0caf5"
red = "#f7768e"
blue = "#7aa2f7"
magenta = "#ad8ee6"
hyprland_active_border = "rgba(33ccffee) rgba(00ff99ee) 45deg"
"##;

#[test]
fn tokyo_night_maps_to_tokens() {
    let p = palette(parse(TOKYO, false).unwrap());
    assert_eq!(p.mode, Mode::Dark);
    assert_eq!(p.bg, Rgb(0x1a, 0x1b, 0x26));
    assert_eq!(p.surface, Rgb(0x24, 0x28, 0x3b));
    assert_eq!(p.surface2, Rgb(0x29, 0x2e, 0x42));
    assert_eq!(p.text, Rgb(0xa9, 0xb1, 0xd6));
    assert_eq!(p.text2, Rgb(0x56, 0x5f, 0x89));
    assert_eq!(p.muted, Rgb(0x41, 0x48, 0x68));
    assert_eq!(p.accent, Rgb(0x7a, 0xa2, 0xf7));
    assert_eq!(p.accent2, Rgb(0xad, 0x8e, 0xe6));
}

#[test]
fn legacy_keys_and_light_detection() {
    let p = palette(parse("bg = \"#faf4ed\"\nfg = \"#575279\"\ncolor4 = \"#56949f\"\ncolor5 = \"#907aa9\"\ncolor8 = \"#cecacd\"\n", false).unwrap());
    assert_eq!(p.mode, Mode::Light);
    assert_eq!(p.accent, Rgb(0x56, 0x94, 0x9f));
    assert_eq!(p.accent2, Rgb(0x90, 0x7a, 0xa9));
    assert_eq!(p.muted, Rgb(0xce, 0xca, 0xcd));
    assert_eq!(p.surface2, p.muted);
}

#[test]
fn empty_file_gives_builtin_like_palette() {
    let p = palette(parse("", false).unwrap());
    assert_eq!(p.bg, Palette::builtin().bg);
    assert_eq!(p.accent, Palette::builtin().accent);
}

#[test]
fn light_mode_marker_file_is_not_needed_when_mode_is_set() {
    let p = palette(parse("mode = \"light\"\nbackground = \"#000000\"\n", false).unwrap());
    assert_eq!(p.mode, Mode::Light);
}

#[test]
fn unset_tokens_fall_back_to_the_background_or_mix_it_with_the_foreground() {
    let r = resolve(&vec![("background".to_string(), "#000000".to_string()), ("foreground".to_string(), "#ffffff".to_string())], false);
    let black = Rgb(0, 0, 0);
    let white = Rgb(255, 255, 255);
    assert_eq!(r.surface, Shade::Toward { from: black, to: white, percent: 8 });
    assert_eq!(r.muted, Shade::Toward { from: black, to: white, percent: 30 });
    assert_eq!(r.surface2, Shade::Named(black));
    assert_eq!(r.text2, Shade::Toward { from: white, to: black, percent: 40 });
    assert_eq!(shade(r.muted), Rgb(76, 76, 76));
    assert_eq!(r.mode, Mode::Dark);
}

#[test]
fn colours_are_six_hex_digits_after_a_hash() {
    assert_eq!(parse_hex(" #7aA2f7 "), Some(Rgb(0x7a, 0xa2, 0xf7)));
    assert_eq!(parse_hex("7aa2f7"), None);
    assert_eq!(parse_hex("#7aa2f"), None);
    assert_eq!(parse_hex("#7aa2fg"), None);
    assert_eq!(parse_hex("rgba(33ccffee)"), None);
}

#[test]
fn a_file_that_is_not_toml_is_an_error() {
    assert!(parse("mode = ", false).is_err());
}

#[test]
fn theme_locations_and_watch_dir() {
    let c = candidate_files(Some("/s"), Some("/h"));
    assert_eq!(
        c,
        vec![
            "/s/omarchy/current/theme/colors.toml",
            "/h/.local/state/omarchy/current/theme/colors.toml",
            "/h/.config/omarchy/current/theme/colors.toml",
        ]
    );
    assert_eq!(candidate_files(Some("rel"), None), Vec::<String>::new());
    assert_eq!(find_file(&c, &vec![false, true, true]).as_deref(), Some("/h/.local/state/omarchy/current/theme/colors.toml"));
    assert_eq!(find_file(&c, &vec![false, false, false]), None);
    assert_eq!(watch_dir("/h/.config/omarchy/current/theme/colors.toml").as_deref(), Some("/h/.config/omarchy/current"));
}

#[test]
fn catppuccin_keys_map_to_tokens() {
    let text = "mode = \"dark\"\naccent = \"#89b4fa\"\nselection = \"#45475a\"\nmuted = \"#585b70\"\nbackground = \"#1e1e2e\"\nlighter_background = \"#313244\"\nforeground = \"#cdd6f4\"\nmagenta = \"#f5c2e7\"\n";
    let r = parse(text, false).unwrap();
    assert_eq!(r.mode, Mode::Dark);
    assert_eq!(r.bg, Rgb(0x1e, 0x1e, 0x2e));
    assert_eq!(r.text, Rgb(0xcd, 0xd6, 0xf4));
    assert_eq!(r.accent, Rgb(0x89, 0xb4, 0xfa));
    assert_eq!(r.accent2, Rgb(0xf5, 0xc2, 0xe7));
    assert_eq!(r.muted, Shade::Named(Rgb(0x58, 0x5b, 0x70)));
    assert_eq!(r.surface, Shade::Named(Rgb(0x31, 0x32, 0x44)));
    assert_eq!(r.surface2, Shade::Named(Rgb(0x45, 0x47, 0x5a)));
    assert_eq!(r.text2, Shade::Toward { from: r.text, to: r.bg, percent: 40 });
}

#[test]
fn a_light_mode_marker_makes_a_dark_background_light_unless_the_mode_is_stated() {
    assert_eq!(parse("background = \"#000000\"\n", true).unwrap().mode, Mode::Light);
    assert_eq!(parse("background = \"#000000\"\n", false).unwrap().mode, Mode::Dark);
    assert_eq!(parse("mode = \"dark\"\nbackground = \"#ffffff\"\n", true).unwrap().mode, Mode::Dark);
}

#[test]
fn a_candidate_without_a_presence_flag_counts_as_absent() {
    let c = candidate_files(Some("/s"), Some("/h"));
    assert_eq!(find_file(&c, &vec![false]), None);
    assert_eq!(find_file(&c, &vec![false, true]).as_deref(), Some("/h/.local/state/omarchy/current/theme/colors.toml"));
}
