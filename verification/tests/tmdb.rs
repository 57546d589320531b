use omavision_core::meta::find_episode_title;
use omavision_core::tmdb::{
    candidates, encode, episode_key, episodes_from_season, meta_from_details, pick, Candidate, Client, Details, MediaKind,
    SearchResult, SeasonDetails, credential,
};

/// The order key `f64::total_cmp` compares by, as an unsigned number.
fn popularity_key(f: f64) -> u64 {
    let b = f.to_bits();
    if b >> 63 == 1 {
        !b
    } else {
        b | (1 << 63)
    }
}

fn names(v: &[&str]) -> Vec<String> {
    v.iter().map(|s| s.to_string()).collect()
}

fn empty_details() -> Details {
    Details {
        id: None,
        title: String::new(),
        original_title: String::new(),
        release_date: String::new(),
        name: String::new(),
        original_name: String::new(),
        first_air_date: String::new(),
        overview: String::new(),
        runtime: None,
        episode_run_time: None,
        rating: None,
        genres: vec![],
        production_companies: vec![],
        networks: vec![],
        created_by: vec![],
        crew: vec![],
        cast: vec![],
        keywords: vec![],
        poster_path: None,
    }
}

#[test]
fn parses_movie_details() {
    let mut d = empty_details();
    d.id = Some(129);
    d.title = "Le Voyage de Chihiro".into();
    d.original_title = "千と千尋の神隠し".into();
    d.release_date = "2001-07-20".into();
    d.overview = "Chihiro...".into();
    d.runtime = Some(125);
    d.rating = Some(85);
    d.genres = names(&["Animation", "Familial"]);
    d.poster_path = Some("/abc.jpg".into());
    d.production_companies = names(&["Studio Ghibli"]);
    d.cast = names(&["Rumi Hiiragi", "Miyu Irino"]);
    d.crew = vec![
        (Some("Hayao Miyazaki".into()), Some("Director".into())),
        (Some("Joe Hisaishi".into()), Some("Original Music Composer".into())),
    ];
    d.keywords = names(&["witch", "anime"]);
    let m = meta_from_details(MediaKind::Movie, &d, "fr");
    assert_eq!(m.tmdb_id, Some(129));
    assert_eq!(m.title, "Le Voyage de Chihiro");
    assert_eq!(m.year, Some(2001));
    assert_eq!(m.runtime, Some(125));
    assert_eq!(m.rating, Some(85));
    assert_eq!(m.genres, vec!["Animation", "Familial"]);
    assert_eq!(m.companies, vec!["Studio Ghibli"]);
    assert_eq!(m.people, vec!["Hayao Miyazaki", "Rumi Hiiragi", "Miyu Irino"]);
    assert_eq!(m.keywords, vec!["witch", "anime"]);
    assert_eq!(m.poster_url.as_deref(), Some("https://image.tmdb.org/t/p/w500/abc.jpg"));
}

#[test]
fn parses_tv_details_and_season() {
    let mut d = empty_details();
    d.id = Some(1668);
    d.name = "Friends".into();
    d.original_name = "Friends".into();
    d.first_air_date = "1994-09-22".into();
    d.episode_run_time = Some(22);
    d.networks = names(&["NBC"]);
    d.created_by = names(&["David Crane"]);
    d.keywords = names(&["sitcom"]);
    let m = meta_from_details(MediaKind::Tv, &d, "fr");
    assert_eq!(m.runtime, Some(22));
    assert_eq!(m.year, Some(1994));
    assert_eq!(m.companies, vec!["NBC"]);
    assert_eq!(m.people, vec!["David Crane"]);
    assert_eq!(m.keywords, vec!["sitcom"]);
    let s = SeasonDetails { season_number: 2, episodes: vec![(3, "Celui qui a une bosse".into()), (4, String::new())] };
    let eps = episodes_from_season(&s);
    assert_eq!(find_episode_title(&eps, "S02E03").map(String::as_str), Some("Celui qui a une bosse"));
    assert!(find_episode_title(&eps, "S02E04").is_none());
}

#[test]
fn a_later_episode_with_the_same_key_wins() {
    let s = SeasonDetails { season_number: 1, episodes: vec![(1, "First".into()), (1, "Second".into())] };
    let eps = episodes_from_season(&s);
    assert_eq!(eps.len(), 1);
    assert_eq!(find_episode_title(&eps, "S01E01").map(String::as_str), Some("Second"));
}

#[test]
fn people_drop_consecutive_repeats_and_cap_the_cast() {
    let mut d = empty_details();
    d.created_by = names(&["A"]);
    d.crew = vec![(Some("A".into()), Some("Director".into())), (Some("B".into()), None)];
    d.cast = names(&["C", "D", "E", "F", "G", "H"]);
    let m = meta_from_details(MediaKind::Movie, &d, "en");
    assert_eq!(m.people, vec!["A", "C", "D", "E", "F", "G"]);
    assert_eq!(m.runtime, None);
    assert_eq!(m.poster_url, None);
}

fn search(id: u64, date: &str, votes: u64, popularity: f64) -> SearchResult {
    SearchResult { id: Some(id), date: date.into(), votes, popularity: popularity_key(popularity) }
}

#[test]
fn picks_the_voted_film_over_the_same_year_featurette() {
    let results = vec![
        search(729191, "2002-07-11", 2, 1.1),
        search(15370, "2002-07-19", 2535, 10.6),
        search(348909, "1992-06-17", 16, 2.2),
    ];
    let c = candidates(&results);
    assert_eq!(pick(&c, Some(2002)), Some(15370));
    assert_eq!(pick(&c, Some(1992)), Some(348909));
    assert_eq!(pick(&c, None), Some(15370));
    assert_eq!(pick(&vec![], Some(2002)), None);
}

#[test]
fn year_off_by_one_still_counts() {
    let c = vec![
        Candidate { id: 1, year: Some(2003), votes: 10, popularity: popularity_key(1.0) },
        Candidate { id: 2, year: Some(1990), votes: 999, popularity: popularity_key(9.0) },
    ];
    assert_eq!(pick(&c, Some(2002)), Some(1));
}

#[test]
fn equal_votes_go_to_the_more_popular_and_results_without_id_are_dropped() {
    let mut results = vec![search(1, "2000", 5, 1.5), search(2, "2000-01-01", 5, 2.5)];
    results.push(SearchResult { id: None, date: "2000".into(), votes: 100, popularity: popularity_key(9.0) });
    let c = candidates(&results);
    assert_eq!(c.len(), 2);
    assert_eq!(c[0].year, Some(2000));
    assert_eq!(pick(&c, Some(2000)), Some(2));
    let c = candidates(&vec![search(3, "", 1, 0.0), search(4, "19x5-01-01", 1, 0.0)]);
    assert_eq!(c[0].year, None);
    assert_eq!(c[1].year, None);
}

#[test]
fn encodes_utf8_queries() {
    assert_eq!(encode("L'Âge de glace"), "L%27%C3%82ge%20de%20glace");
    assert_eq!(encode("John Wick - Chapter 2"), "John%20Wick%20-%20Chapter%202");
}

#[test]
fn encoding_keeps_unreserved_characters() {
    assert_eq!(encode("aZ09-_.~"), "aZ09-_.~");
    assert_eq!(encode("a/b&c=d"), "a%2Fb%26c%3Dd");
    assert_eq!(encode(""), "");
}

#[test]
fn episode_keys_are_zero_padded() {
    assert_eq!(episode_key(2, 3), "S02E03");
    assert_eq!(episode_key(10, 123), "S10E123");
}

#[test]
fn a_v3_key_goes_in_the_query_and_a_token_in_a_header() {
    let c = Client::new("0123abcd".into());
    let r = c.season_episodes(1668, 2, "fr");
    assert_eq!(r.url, "https://api.themoviedb.org/3/tv/1668/season/2?language=fr&api_key=0123abcd");
    assert_eq!(r.authorization, None);
    let c = Client::new("eyJhbGciOi".into());
    let r = c.details(MediaKind::Movie, 129, "en");
    assert_eq!(r.url, "https://api.themoviedb.org/3/movie/129?language=en&append_to_response=credits%2Ckeywords");
    assert_eq!(r.authorization.as_deref(), Some("Bearer eyJhbGciOi"));
    let r = c.search(MediaKind::Tv, "L'Âge", "fr");
    assert_eq!(r.url, "https://api.themoviedb.org/3/search/tv?query=L%27%C3%82ge&language=fr&include_adult=false");
}

#[test]
fn the_credential_is_the_first_that_is_not_blank() {
    assert_eq!(credential(Some("  "), Some(" key \n"), Some("file")), Some("key".to_string()));
    assert_eq!(credential(Some("tok"), Some("key"), None), Some("tok".to_string()));
    assert_eq!(credential(None, None, Some("\tfile-key\n")), Some("file-key".to_string()));
    assert_eq!(credential(None, Some(""), None), None);
}
