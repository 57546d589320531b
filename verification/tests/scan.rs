use omavision_core::config::Config;
use omavision_core::index::Kind;
use omavision_core::scan::{category_order, hidden, index_from, label_for, rank, scan_category, FileEntry};

fn file(rel: &str) -> FileEntry {
    let name = rel.rsplit('/').next().unwrap();
    let stem = match name.rfind('.') {
        Some(i) if i > 0 => &name[..i],
        _ => name,
    };
    FileEntry { rel: rel.to_string(), stem: stem.to_string() }
}

fn strings(v: &[&str]) -> Vec<String> {
    v.iter().map(|s| s.to_string()).collect()
}

#[test]
fn labels_folders() {
    assert_eq!(label_for("dessins-animes"), "Dessins animes");
    assert_eq!(label_for("films"), "Films");
}

#[test]
fn labels_turn_underscores_into_spaces_and_handle_empty_names() {
    assert_eq!(label_for("_x_y"), " x y");
    assert_eq!(label_for("éclairs"), "Éclairs");
    assert_eq!(label_for(""), "");
}

#[test]
fn dot_names_are_hidden() {
    assert!(hidden(".omavision"));
    assert!(hidden("._John Wick (2014).mkv"));
    assert!(!hidden("films"));
}

#[test]
fn configured_order_comes_first_then_alphabetical() {
    let order = strings(&["Films", "series", "missing"]);
    let names = strings(&["divers", "series", ".omavision", "concerts", "films"]);
    assert_eq!(category_order(&order, &names), vec!["films", "series", "concerts", "divers"]);
    assert_eq!(rank(&order, "FILMS"), 0);
    assert_eq!(rank(&order, "concerts"), 3);
}

#[test]
fn groups_episodes_into_shows_and_skips_hidden() {
    let c = Config::default();
    let films = vec![
        file("films/John Wick (2014).mkv"),
        file("films/notes.txt"),
        file("films/Nested Folder/Spirited Away 2001 1080p.mkv"),
    ];
    let series = vec![
        file("series/Friends/Season 01/Friends S01E02.mp4"),
        file("series/Friends/Season 01/Friends S01E01.mp4"),
        file("series/Friends/Season 02/Friends S02E01.mp4"),
    ];
    let names = strings(&["series", "films", ".omavision"]);
    let order = category_order(&c.library.order, &names);
    assert_eq!(order, vec!["films", "series"]);
    let idx = index_from(&c, &vec![("films".to_string(), films), ("series".to_string(), series)]);
    assert_eq!(idx.categories.iter().map(|c| c.id.as_str()).collect::<Vec<_>>(), vec!["films", "series"]);
    assert_eq!(idx.categories[0].label, "Films");
    let films = &idx.categories[0].items;
    assert_eq!(films.len(), 2);
    assert_eq!(films[0].title, "John Wick");
    assert_eq!(films[0].kind, Kind::Movie);
    assert_eq!(films[0].path.as_deref(), Some("films/John Wick (2014).mkv"));
    assert_eq!(films[1].title, "Spirited Away");
    let friends = &idx.categories[1].items[0];
    assert_eq!(friends.kind, Kind::Show);
    assert_eq!(friends.id, "series/Friends");
    assert_eq!(friends.seasons.len(), 2);
    assert_eq!(friends.seasons[0].episodes[0].episode, 1);
    assert_eq!(friends.seasons[0].episodes[1].path, "series/Friends/Season 01/Friends S01E02.mp4");
    assert_eq!(friends.episode_count(), 3);
}

#[test]
fn ids_are_composed_while_paths_stay_raw() {
    let c = Config::default();
    let items = scan_category(&c, "films", &vec![file("films/Le Monde cache\u{301} (2019).mkv")]);
    assert_eq!(items[0].id, "films/Le Monde cach\u{e9} (2019).mkv");
    assert_eq!(items[0].path.as_deref(), Some("films/Le Monde cache\u{301} (2019).mkv"));
    assert_eq!(items[0].title, "Le Monde cach\u{e9}");
}

#[test]
fn items_sort_by_title_case_aside_and_flat_files_have_no_year() {
    let c = Config::default();
    let items = scan_category(
        &c,
        "divers",
        &vec![file("divers/yakari.MKV"), file("divers/Ponyo (2008).mkv"), file("divers/Arrival 2016.webm"), file("divers/zz.srt")],
    );
    let titles: Vec<&str> = items.iter().map(|i| i.title.as_str()).collect();
    assert_eq!(titles, vec!["Arrival", "Ponyo", "yakari"]);
    assert_eq!(items[2].kind, Kind::Flat);
    assert_eq!(items[2].year, None);
    assert_eq!(items[0].year, Some(2016));
}

#[test]
fn shows_of_the_same_category_sort_apart_and_seasons_ascend() {
    let c = Config::default();
    let items = scan_category(
        &c,
        "series",
        &vec![
            file("series/b/Bluey S02E01.mkv"),
            file("series/a/Archer S10E02.mkv"),
            file("series/b/Bluey S01E03.mkv"),
            file("series/a/Archer S10E01.mkv"),
        ],
    );
    assert_eq!(items.len(), 2);
    assert_eq!(items[0].title, "Archer");
    assert_eq!(items[0].seasons.len(), 1);
    assert_eq!(items[0].seasons[0].number, 10);
    assert_eq!(items[0].seasons[0].episodes.iter().map(|e| e.episode).collect::<Vec<_>>(), vec![1, 2]);
    assert_eq!(items[1].id, "series/Bluey");
    assert_eq!(items[1].seasons.iter().map(|s| s.number).collect::<Vec<_>>(), vec![1, 2]);
}
