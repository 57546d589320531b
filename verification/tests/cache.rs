use omavision_core::cache::{cache_key, poster_file, Cache};

#[test]
fn key_is_stable_and_filename_safe() {
    assert_eq!(cache_key("films/John Wick (2014).mkv"), cache_key("films/John Wick (2014).mkv"));
    assert_ne!(cache_key("a"), cache_key("b"));
    assert!(cache_key("séries/x").chars().all(|c| c.is_ascii_hexdigit()));
}

#[test]
fn key_is_fnv1a_64_in_sixteen_lower_hex_digits() {
    assert_eq!(cache_key(""), "cbf29ce484222325");
    assert_eq!(cache_key("a"), "af63dc4c8601ec8c");
    assert_eq!(cache_key("séries/x").len(), 16);
    assert!(cache_key("séries/x").chars().all(|c| c.is_ascii_digit() || ('a'..='f').contains(&c)));
}

#[test]
fn cache_paths_follow_the_layout() {
    let c = Cache::open("/lib/.omavision".to_string());
    assert_eq!(c.dir(), "/lib/.omavision");
    assert_eq!(c.index_path(), "/lib/.omavision/index.json");
    let key = cache_key("films/x.mkv");
    assert_eq!(poster_file("films/x.mkv"), format!("{key}.jpg"));
    assert_eq!(c.poster_path("films/x.mkv"), format!("/lib/.omavision/posters/{key}.jpg"));
    assert_eq!(c.meta_path("films/x.mkv"), format!("/lib/.omavision/meta/{key}.json"));
}
