use omavision_core::parse::{parse_stem, Parsed};

#[test]
fn title_with_paren_year() {
    assert_eq!(parse_stem("My Neighbor Totoro (1988)"), Parsed::Movie { title: "My Neighbor Totoro".into(), year: 1988 });
    assert_eq!(parse_stem("L'Âge de glace (2002)"), Parsed::Movie { title: "L'Âge de glace".into(), year: 2002 });
    assert_eq!(parse_stem("John Wick - Chapter 3 Parabellum (2019)"), Parsed::Movie { title: "John Wick - Chapter 3 Parabellum".into(), year: 2019 });
}

#[test]
fn episode() {
    assert_eq!(parse_stem("Friends S03E05"), Parsed::Episode { show: "Friends".into(), season: 3, episode: 5 });
    assert_eq!(parse_stem("The.Office.S02E10.720p"), Parsed::Episode { show: "The Office".into(), season: 2, episode: 10 });
}

#[test]
fn scene_name_with_bare_year() {
    assert_eq!(
        parse_stem("The Boy and the Heron 2023 1080p (DAUL) WEB-DL HEVC x265 5.1 BONE"),
        Parsed::Movie { title: "The Boy and the Heron".into(), year: 2023 }
    );
    assert_eq!(parse_stem("Spirited.Away.2001.1080p.BluRay"), Parsed::Movie { title: "Spirited Away".into(), year: 2001 });
}

#[test]
fn composes_decomposed_accents() {
    let nfd = "L'A\u{302}ge de glace (2002)";
    assert_eq!(parse_stem(nfd), Parsed::Movie { title: "L'\u{c2}ge de glace".into(), year: 2002 });
    assert_eq!(parse_stem("Dragons 3 - Le Monde cache\u{301} (2019)"), Parsed::Movie { title: "Dragons 3 - Le Monde caché".into(), year: 2019 });
}

#[test]
fn flat_when_nothing_matches() {
    assert_eq!(parse_stem("La Pat Patrouille - Vol 8"), Parsed::Flat { title: "La Pat Patrouille - Vol 8".into() });
    assert_eq!(parse_stem("Yakari"), Parsed::Flat { title: "Yakari".into() });
}

#[test]
fn a_number_in_a_title_is_not_a_year() {
    assert_eq!(parse_stem("Dragons 3 - Le Monde caché (2019)"), Parsed::Movie { title: "Dragons 3 - Le Monde caché".into(), year: 2019 });
    assert_eq!(parse_stem("Metallica - S&M2 (2019)"), Parsed::Movie { title: "Metallica - S&M2".into(), year: 2019 });
}

#[test]
fn parsed_names_are_single_spaced_words() {
    for stem in ["  The   Matrix  (1999)", "Le.Monde.Cache.2003", "Show Name  S01E02", "  odd \t name  "] {
        let name = match parse_stem(stem) {
            Parsed::Movie { title, .. } => title,
            Parsed::Episode { show, .. } => show,
            Parsed::Flat { title } => title,
        };
        assert_eq!(name, name.split_whitespace().collect::<Vec<_>>().join(" "));
    }
    assert_eq!(parse_stem("  The   Matrix  (1999)"), Parsed::Movie { title: "The Matrix".into(), year: 1999 });
    assert_eq!(parse_stem("  odd \t name  "), Parsed::Flat { title: "odd name".into() });
}

#[test]
fn pattern_numbers_stay_in_range() {
    assert_eq!(parse_stem("Show S99E999"), Parsed::Episode { show: "Show".into(), season: 99, episode: 999 });
    assert_eq!(parse_stem("Film 2099"), Parsed::Movie { title: "Film".into(), year: 2099 });
    assert_eq!(parse_stem("Film (1900)"), Parsed::Movie { title: "Film".into(), year: 1900 });
}
