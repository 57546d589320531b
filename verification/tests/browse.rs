use omavision_core::browse::{Action, Browser, Effect, MetaMap};
use omavision_core::index::{Category, Episode, Index, Item, Kind, Season};
use omavision_core::meta::Meta;

fn movie(cat: &str, title: &str, year: u16) -> Item {
    let path = format!("{cat}/{title} ({year}).mkv");
    Item { id: path.clone(), kind: Kind::Movie, title: title.into(), year: Some(year), path: Some(path), seasons: vec![] }
}

fn show(cat: &str, title: &str) -> Item {
    let ep = |season, episode| Episode { season, episode, path: format!("{cat}/{title}/S{season:02}E{episode:02}.mkv"), title: None };
    let seasons = vec![Season { number: 1, episodes: vec![ep(1, 1), ep(1, 2)] }, Season { number: 2, episodes: vec![ep(2, 1)] }];
    Item { id: format!("{cat}/{title}"), kind: Kind::Show, title: title.into(), year: None, path: None, seasons }
}

fn library() -> Index {
    Index {
        scanned_at: 0,
        categories: vec![
            Category {
                id: "films".into(),
                label: "Films".into(),
                items: vec![
                    movie("films", "John Wick", 2014),
                    movie("films", "John Wick - Chapter 2", 2017),
                    movie("films", "John Wick - Chapter 3", 2019),
                    movie("films", "Ponyo", 2008),
                ],
            },
            Category { id: "series".into(), label: "Series".into(), items: vec![show("series", "Friends")] },
        ],
    }
}

fn browser() -> Browser {
    Browser::new(library(), MetaMap::new(), "/lib".to_string())
}

fn type_in(b: &mut Browser, text: &str) {
    for c in text.chars() {
        b.apply(Action::Type(c));
    }
}

fn play(p: &str) -> Option<Effect> {
    Some(Effect::Play(p.to_string()))
}

#[test]
fn typing_then_moving_down_plays_the_second_match() {
    let mut b = browser();
    type_in(&mut b, "wick");
    assert_eq!(b.view().rows.len(), 3);
    assert_eq!(b.apply(Action::Down), None);
    assert_eq!(b.apply(Action::Activate), play("/lib/films/John Wick - Chapter 2 (2017).mkv"));
}

#[test]
fn activating_a_show_opens_it_on_its_first_episode() {
    let mut b = browser();
    b.apply(Action::NextTab);
    b.apply(Action::NextTab);
    assert_eq!(b.apply(Action::Activate), None);
    let v = b.view();
    assert_eq!(v.crumb, "Friends");
    assert_eq!(v.rows.iter().map(|r| (r.heading, r.number, r.code.as_str())).collect::<Vec<_>>(), vec![(true, 0, ""), (false, 1, "S01 · E01"), (false, 2, "S01 · E02"), (true, 0, ""), (false, 3, "S02 · E01")]);
    assert_eq!((v.rows[0].title.as_str(), v.rows[0].episodes), ("Season 1", 2));
    assert_eq!(v.selected, 1);
    assert_eq!((v.shown, v.total), (3, 3));
    assert_eq!(v.card.title, "Friends");
    assert_eq!(v.card.facts, "2 seasons · 3 episodes");
    assert_eq!(v.card.episode, "S01 · E01");
    assert_eq!(b.apply(Action::Activate), play("/lib/series/Friends/S01E01.mkv"));
}

#[test]
fn inside_a_show_left_and_right_jump_seasons_and_movement_skips_headings() {
    let mut b = browser();
    b.apply(Action::End);
    b.apply(Action::Activate);
    b.apply(Action::NextTab);
    assert_eq!(b.view().selected, 4);
    assert_eq!(b.apply(Action::Activate), play("/lib/series/Friends/S02E01.mkv"));
    b.apply(Action::NextTab);
    assert_eq!(b.view().selected, 4);
    b.apply(Action::PrevTab);
    assert_eq!(b.view().selected, 1);
    b.apply(Action::Down);
    assert_eq!(b.view().selected, 2);
    b.apply(Action::Down);
    assert_eq!(b.view().selected, 4);
    b.apply(Action::Home);
    assert_eq!(b.view().selected, 1);
    b.apply(Action::Page(10));
    assert_eq!(b.view().selected, 4);
}

#[test]
fn leaving_a_show_returns_to_the_same_line_and_typing_inside_is_ignored() {
    let mut b = browser();
    type_in(&mut b, "fri");
    b.apply(Action::Activate);
    assert_eq!(b.apply(Action::Type('x')), None);
    assert_eq!(b.view().filter, "fri");
    assert_eq!(b.apply(Action::Clear), None);
    let v = b.view();
    assert_eq!(v.crumb, "");
    assert_eq!(v.filter, "fri");
    assert_eq!(v.rows.len(), 1);
    assert_eq!(v.card.episode, "");
    b.apply(Action::Activate);
    b.apply(Action::Backspace);
    assert_eq!(b.view().crumb, "");
    assert_eq!(b.view().filter, "fri");
}

#[test]
fn episode_titles_come_from_metadata() {
    let mut b = browser();
    let episodes = vec![("S01E02".to_string(), "The One with the Sonogram".to_string())];
    b.set_meta("series/Friends".into(), Meta { tmdb_id: Some(1), title: "Friends".into(), episodes, ..Default::default() });
    b.apply(Action::End);
    b.apply(Action::Activate);
    b.apply(Action::Down);
    assert_eq!(b.selected_id(), Some("series/Friends"));
    let v = b.view();
    assert_eq!(v.rows[2].title, "The One with the Sonogram");
    assert_eq!(v.rows[1].title, "");
    assert_eq!(v.card.episode, "S01 · E02 · The One with the Sonogram");
}

#[test]
fn a_rescan_keeps_an_open_show_unless_it_is_gone() {
    let mut b = browser();
    b.apply(Action::End);
    b.apply(Action::Activate);
    b.apply(Action::End);
    b.set_index(library(), MetaMap::new());
    assert_eq!(b.view().crumb, "Friends");
    assert_eq!(b.view().selected, 4);
    let mut index = library();
    index.categories.truncate(1);
    b.set_index(index, MetaMap::new());
    assert_eq!(b.view().crumb, "");
}

#[test]
fn the_all_tab_comes_first_and_merges_every_category() {
    let b = browser();
    let v = b.view();
    assert_eq!(v.tabs.iter().map(|t| (t.id.as_str(), t.count)).collect::<Vec<_>>(), vec![("all", 5), ("films", 4), ("series", 1)]);
    assert_eq!(v.active_tab, 0);
    assert_eq!(v.rows.iter().map(|r| r.title.as_str()).collect::<Vec<_>>(), vec!["John Wick", "John Wick - Chapter 2", "John Wick - Chapter 3", "Ponyo", "Friends"]);
    assert_eq!(v.rows.iter().map(|r| r.number).collect::<Vec<_>>(), vec![1, 2, 3, 4, 5]);
    assert_eq!((v.shown, v.total), (5, 5));
}

#[test]
fn the_all_tab_card_names_the_item_own_category() {
    let mut b = browser();
    b.apply(Action::End);
    assert_eq!(b.card().label, "Card · Series No. 005");
    assert_eq!(b.apply(Action::Activate), None);
    assert_eq!(b.card().label, "Card · Series No. 005");
}

#[test]
fn a_single_category_has_no_all_tab() {
    let mut index = library();
    index.categories.truncate(1);
    let b = Browser::new(index, MetaMap::new(), "/lib".to_string());
    assert_eq!(b.view().tabs.iter().map(|t| t.id.as_str()).collect::<Vec<_>>(), vec!["films"]);
    assert_eq!(b.view().rows.len(), 4);
}

#[test]
fn tabs_wrap_both_ways() {
    let mut b = browser();
    b.apply(Action::NextTab);
    assert_eq!(b.view().active_tab, 1);
    b.apply(Action::NextTab);
    assert_eq!(b.view().active_tab, 2);
    b.apply(Action::NextTab);
    assert_eq!(b.view().active_tab, 0);
    b.apply(Action::PrevTab);
    assert_eq!(b.view().active_tab, 2);
}

#[test]
fn the_filter_survives_a_tab_switch() {
    let mut b = browser();
    b.apply(Action::NextTab);
    type_in(&mut b, "friends");
    assert!(b.view().rows.is_empty());
    b.apply(Action::NextTab);
    let v = b.view();
    assert_eq!(v.filter, "friends");
    assert_eq!(v.rows.len(), 1);
    assert_eq!(v.shown, 1);
    assert_eq!(v.total, 1);
}

#[test]
fn escape_on_an_empty_filter_is_not_handled() {
    let mut b = browser();
    assert_eq!(b.apply(Action::Clear), Some(Effect::Unhandled));
    type_in(&mut b, "po");
    assert_eq!(b.apply(Action::Clear), None);
    assert_eq!(b.view().filter, "");
    assert_eq!(b.view().rows.len(), 5);
}

#[test]
fn moving_clamps_and_filtering_pulls_the_selection_back() {
    let mut b = browser();
    b.apply(Action::NextTab);
    b.apply(Action::End);
    assert_eq!(b.view().selected, 3);
    b.apply(Action::Down);
    assert_eq!(b.view().selected, 3);
    b.apply(Action::Page(10));
    assert_eq!(b.view().selected, 3);
    type_in(&mut b, "ponyo");
    assert_eq!(b.view().selected, 0);
    b.apply(Action::Backspace);
    b.apply(Action::Page(-10));
    assert_eq!(b.view().selected, 0);
    assert_eq!(b.apply(Action::Up), None);
}

#[test]
fn the_card_words_an_item_with_and_without_metadata() {
    let mut b = browser();
    assert_eq!(b.card().note, "Metadata pending");
    assert_eq!(b.card().label, "Card · Films No. 001");
    assert_eq!(b.card().facts, "2014");
    let meta = Meta { tmdb_id: Some(1), title: "John Wick".into(), original_title: "John Wick".into(), year: Some(2014), overview: "A hitman.".into(), runtime: Some(101), rating: Some(74), genres: vec!["Action".into()], poster_file: Some("x.jpg".into()), ..Default::default() };
    b.set_meta("films/John Wick (2014).mkv".into(), meta);
    let c = b.card();
    assert_eq!(c.facts, "2014 · 101 min · ★ 7.4");
    assert_eq!(c.genres, "Action");
    assert_eq!(c.original, "");
    assert_eq!(c.note, "A hitman.");
    assert!(!c.note_italic);
    assert!(c.has_poster);
}

#[test]
fn an_empty_list_still_has_a_card() {
    let mut b = Browser::new(Index::default(), MetaMap::new(), "/lib".to_string());
    assert_eq!(b.card().note, "Nothing here yet.");
    assert_eq!(b.apply(Action::Activate), None);
    let mut b2 = browser();
    type_in(&mut b2, "zzz");
    assert_eq!(b2.card().note, "No match.");
    assert!(b2.card().item_id.is_empty());
}

#[test]
fn backspace_undoes_typing() {
    let mut b = browser();
    let before = b.view().rows.iter().map(|r| r.title.clone()).collect::<Vec<_>>();
    type_in(&mut b, "ponyo");
    assert_eq!(b.view().rows.len(), 1);
    for _ in 0..5 {
        assert_eq!(b.apply(Action::Backspace), None);
    }
    let v = b.view();
    assert_eq!(v.filter, "");
    assert_eq!(v.rows.iter().map(|r| r.title.clone()).collect::<Vec<_>>(), before);
}

#[test]
fn the_next_tab_then_the_previous_one_comes_back() {
    let mut b = browser();
    for start in 0..3 {
        assert_eq!(b.view().active_tab, start);
        b.apply(Action::NextTab);
        b.apply(Action::PrevTab);
        assert_eq!(b.view().active_tab, start);
        b.apply(Action::NextTab);
    }
}

#[test]
fn a_new_browser_shows_every_line_of_the_first_tab() {
    let b = browser();
    let v = b.view();
    assert_eq!(v.filter, "");
    assert_eq!(v.rows.len(), 5);
    assert_eq!(v.shown, 5);
    assert_eq!(v.total, 5);
    let numbers: Vec<usize> = v.rows.iter().map(|r| r.number).collect();
    assert_eq!(numbers, vec![1, 2, 3, 4, 5]);
    assert_eq!(v.crumb, "");
}

#[test]
fn a_filtered_list_never_shows_more_than_its_tab() {
    let mut b = browser();
    b.apply(Action::NextTab);
    type_in(&mut b, "john");
    let v = b.view();
    assert_eq!(v.shown, 3);
    assert_eq!(v.total, 4);
    assert!(v.shown <= v.total);
    assert_eq!(v.rows.len(), v.shown);
    assert_eq!(v.tabs.len(), 3);
    assert_eq!(v.tabs[0].id, "all");
    assert_eq!(v.tabs[0].count, 5);
    assert_eq!(v.tabs[1].id, "films");
    assert_eq!(v.tabs[1].count, 4);
    assert_eq!(v.tabs[2].id, "series");
    assert_eq!(v.tabs[2].count, 1);
}

#[test]
fn a_root_with_a_trailing_slash_gets_no_second_one() {
    let mut b = Browser::new(library(), MetaMap::new(), "/lib/".to_string());
    assert_eq!(b.apply(Action::Activate), play("/lib/films/John Wick (2014).mkv"));
}
