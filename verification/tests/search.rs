use omavision_core::browse::MetaMap;
use omavision_core::index::{Item, Kind};
use omavision_core::meta::Meta;
use omavision_core::search::{filter, fold};

fn item(title: &str, year: Option<u16>) -> Item {
    Item { id: title.into(), kind: Kind::Movie, title: title.into(), year, path: Some(title.into()), seasons: vec![] }
}

#[test]
fn folds_case_and_accents() {
    assert_eq!(fold("L'Âge de glace"), "l'age de glace");
    assert_eq!(fold("Le Monde caché"), "le monde cache");
}

#[test]
fn filters_on_title_and_year_and_ignores_accents() {
    let items = vec![item("L'Âge de glace", Some(2002)), item("Ponyo", Some(2008)), item("Yakari", None)];
    let meta = MetaMap::new();
    assert_eq!(filter(&items, &meta, ""), vec![0, 1, 2]);
    assert_eq!(filter(&items, &meta, "age"), vec![0]);
    assert_eq!(filter(&items, &meta, "GLACE"), vec![0]);
    assert_eq!(filter(&items, &meta, "2008"), vec![1]);
    assert_eq!(filter(&items, &meta, "yak"), vec![2]);
    assert!(filter(&items, &meta, "ghibli").is_empty());
}

#[test]
fn filters_on_enrichment_fields_and_every_word() {
    let items = vec![item("Spirited Away", Some(2001)), item("Ponyo", Some(2008)), item("Cars", Some(2006))];
    let mut meta = MetaMap::new();
    meta.insert("Spirited Away".to_string(), Meta { title: "Le Voyage de Chihiro".into(), original_title: "千と千尋の神隠し".into(), genres: vec!["Animation".into()], companies: vec!["Studio Ghibli".into()], people: vec!["Hayao Miyazaki".into()], keywords: vec!["witch".into()], overview: "A girl".into(), ..Default::default() });
    meta.insert("Ponyo".to_string(), Meta { companies: vec!["Studio Ghibli".into()], ..Default::default() });
    meta.insert("Cars".to_string(), Meta { companies: vec!["Pixar".into()], ..Default::default() });
    assert_eq!(filter(&items, &meta, "ghibli"), vec![0, 1]);
    assert_eq!(filter(&items, &meta, "GHIBLI 2008"), vec![1]);
    assert_eq!(filter(&items, &meta, "chihiro"), vec![0]);
    assert_eq!(filter(&items, &meta, "千尋"), vec![0]);
    assert_eq!(filter(&items, &meta, "miyazaki witch"), vec![0]);
    assert_eq!(filter(&items, &meta, "animation"), vec![0]);
    assert!(filter(&items, &meta, "girl").is_empty());
    assert!(filter(&items, &meta, "ghibli pixar").is_empty());
}

#[test]
fn folding_lower_case_text_only_drops_accents() {
    assert_eq!(omavision_core::search::fold_lowered("l'âge de glace"), "l'age de glace");
    assert_eq!(omavision_core::search::fold_lowered("ÂGE"), "ÂGE");
}

#[test]
fn folding_twice_changes_nothing_and_keeps_the_length() {
    let s = "ÀÉÎÕÜ Œuvre Ñandú Ýves";
    let once = fold(s);
    assert_eq!(once, "aeiou ouvre nandu yves");
    assert_eq!(fold(&once), once);
    assert_eq!(once.chars().count(), s.to_lowercase().chars().count());
}

#[test]
fn an_empty_query_keeps_every_item_in_order() {
    let items = vec![item("Ponyo", Some(2008)), item("Yakari", None)];
    assert_eq!(filter(&items, &MetaMap::new(), ""), vec![0, 1]);
}
