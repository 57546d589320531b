use omavision_core::browse::MetaMap;
use omavision_core::config::Config;
use omavision_core::enrich::{missing, title_variants, Ask, Lookup, Reply};
use omavision_core::index::{Category, Episode, Index, Item, Kind, Season};
use omavision_core::meta::{find_episode_title, Meta, VERSION};
use omavision_core::tmdb::{Client, Details, SearchResult, SeasonDetails};

fn one_film_index() -> Index {
    let item = Item { id: "films/x.mkv".into(), kind: Kind::Movie, title: "x".into(), year: None, path: Some("films/x.mkv".into()), seasons: vec![] };
    Index { scanned_at: 0, categories: vec![Category { id: "films".into(), label: "Films".into(), items: vec![item] }] }
}

#[test]
fn language_change_marks_items_for_refetch() {
    let index = one_film_index();
    let mut have = MetaMap::new();
    have.insert("films/x.mkv".to_string(), Meta { version: VERSION, requested: "fr".into(), ..Default::default() });
    let mut c = Config::default();
    c.metadata.languages = vec!["fr".into(), "en".into()];
    assert!(missing(&index, &have, &c).is_empty());
    c.metadata.languages = vec!["en".into(), "fr".into()];
    assert_eq!(missing(&index, &have, &c).len(), 1);
}

#[test]
fn old_cache_version_marks_items_for_refetch() {
    let index = one_film_index();
    let mut c = Config::default();
    c.metadata.languages = vec!["en".into()];
    let mut have = MetaMap::new();
    have.insert("films/x.mkv".to_string(), Meta { version: VERSION - 1, requested: "en".into(), ..Default::default() });
    assert_eq!(missing(&index, &have, &c).len(), 1);
}

#[test]
fn items_without_metadata_are_missing_and_no_language_means_english() {
    let index = one_film_index();
    let mut c = Config::default();
    c.metadata.languages = vec![];
    let mut have = MetaMap::new();
    assert_eq!(missing(&index, &have, &c).len(), 1);
    have.insert("films/x.mkv".to_string(), Meta { version: VERSION, requested: "en".into(), ..Default::default() });
    assert!(missing(&index, &have, &c).is_empty());
}

#[test]
fn title_variants_fall_back_to_the_head() {
    assert_eq!(title_variants("Dragons 3 - Le Monde caché"), vec!["Dragons 3 - Le Monde caché", "Dragons 3: Le Monde caché", "Dragons 3"]);
    assert_eq!(title_variants("Ponyo"), vec!["Ponyo"]);
}

#[test]
fn only_the_first_separator_is_turned_into_a_colon() {
    assert_eq!(title_variants("A - B - C"), vec!["A - B - C", "A: B - C", "A"]);
    assert_eq!(title_variants("A-B"), vec!["A-B"]);
}

fn result(id: u64, date: &str, votes: u64) -> SearchResult {
    SearchResult { id: Some(id), date: date.into(), votes, popularity: 0 }
}

fn details(title: &str, overview: &str) -> Details {
    Details {
        id: Some(7),
        title: title.into(),
        original_title: title.into(),
        release_date: "2019-01-01".into(),
        name: String::new(),
        original_name: String::new(),
        first_air_date: String::new(),
        overview: overview.into(),
        runtime: Some(100),
        episode_run_time: None,
        rating: Some(70),
        genres: vec![],
        production_companies: vec![],
        networks: vec![],
        created_by: vec![],
        crew: vec![],
        cast: vec![],
        keywords: vec![],
        poster_path: None,
    }
}

fn url(ask: &Ask) -> String {
    match ask {
        Ask::Search(r) | Ask::Details(r) | Ask::Season(r) => r.url.clone(),
        Ask::Done => String::new(),
    }
}

#[test]
fn a_miss_on_every_variant_keeps_the_parsed_name() {
    let item = Item { id: "films/a.mkv".into(), kind: Kind::Movie, title: "Dragons 3 - Le Monde caché".into(), year: Some(2019), path: None, seasons: vec![] };
    let (mut lk, ask) = Lookup::start(Client::new("abc".into()), &item, &vec!["fr".to_string(), "en".to_string()]);
    assert!(url(&ask).starts_with("https://api.themoviedb.org/3/search/movie?query=Dragons%203%20-%20Le%20Monde%20cach%C3%A9&language=fr"));
    let ask = lk.answer(Reply::Search(vec![]));
    assert!(url(&ask).contains("query=Dragons%203%3A%20Le%20Monde"));
    let ask = lk.answer(Reply::Search(vec![]));
    assert!(url(&ask).contains("query=Dragons%203&"));
    let ask = lk.answer(Reply::Search(vec![]));
    assert!(matches!(ask, Ask::Done));
    assert!(lk.is_done());
    let m = lk.into_meta();
    assert_eq!(m.title, "Dragons 3 - Le Monde caché");
    assert_eq!(m.year, Some(2019));
    assert_eq!(m.language, "fr");
    assert_eq!(m.requested, "fr");
    assert_eq!(m.version, VERSION);
    assert_eq!(m.tmdb_id, None);
}

#[test]
fn details_fall_back_to_the_next_language_for_the_overview() {
    let item = Item { id: "films/a.mkv".into(), kind: Kind::Movie, title: "Ponyo".into(), year: Some(2008), path: None, seasons: vec![] };
    let (mut lk, _) = Lookup::start(Client::new("abc".into()), &item, &vec!["fr".to_string(), "en".to_string()]);
    let ask = lk.answer(Reply::Search(vec![result(12429, "2008-07-19", 3000), result(1, "1990-01-01", 9000)]));
    assert!(url(&ask).starts_with("https://api.themoviedb.org/3/movie/12429?language=fr&append_to_response=credits%2Ckeywords&api_key=abc"));
    let ask = lk.answer(Reply::Details(details("", "")));
    assert!(url(&ask).contains("/movie/12429?language=en&"));
    let ask = lk.answer(Reply::Details(details("Ponyo on the Cliff", "A fish.")));
    assert!(matches!(ask, Ask::Done));
    let m = lk.into_meta();
    assert_eq!(m.title, "Ponyo on the Cliff");
    assert_eq!(m.overview, "A fish.");
    assert_eq!(m.language, "en");
    assert_eq!(m.requested, "fr");
    assert_eq!(m.version, VERSION);
    assert_eq!(m.tmdb_id, Some(7));
}

#[test]
fn shows_collect_episode_titles_season_by_season() {
    let ep = |s: u16, e: u16| Episode { season: s, episode: e, path: format!("S{s}E{e}.mkv"), title: None };
    let item = Item {
        id: "series/Friends".into(),
        kind: Kind::Show,
        title: "Friends".into(),
        year: None,
        path: None,
        seasons: vec![Season { number: 1, episodes: vec![ep(1, 1)] }, Season { number: 2, episodes: vec![ep(2, 3)] }],
    };
    let (mut lk, ask) = Lookup::start(Client::new("eyJtoken".into()), &item, &vec!["en".to_string()]);
    match &ask {
        Ask::Search(r) => {
            assert_eq!(r.url, "https://api.themoviedb.org/3/search/tv?query=Friends&language=en&include_adult=false");
            assert_eq!(r.authorization.as_deref(), Some("Bearer eyJtoken"));
        }
        _ => panic!("expected a search"),
    }
    let ask = lk.answer(Reply::Search(vec![result(1668, "1994-09-22", 9000)]));
    assert_eq!(url(&ask), "https://api.themoviedb.org/3/tv/1668?language=en&append_to_response=credits%2Ckeywords");
    let mut d = details("", "Six friends.");
    d.name = "Friends".into();
    let ask = lk.answer(Reply::Details(d));
    assert_eq!(url(&ask), "https://api.themoviedb.org/3/tv/1668/season/1?language=en");
    let s1 = SeasonDetails { season_number: 1, episodes: vec![(1, "The Pilot".into())] };
    let ask = lk.answer(Reply::Season(Some(s1)));
    assert_eq!(url(&ask), "https://api.themoviedb.org/3/tv/1668/season/2?language=en");
    let ask = lk.answer(Reply::Season(None));
    assert!(matches!(ask, Ask::Done));
    let m = lk.into_meta();
    assert_eq!(m.title, "Friends");
    assert_eq!(find_episode_title(&m.episodes, "S01E01").map(String::as_str), Some("The Pilot"));
    assert_eq!(find_episode_title(&m.episodes, "S02E03"), None);
}
