use omavision_core::browse::{Browser, MetaMap};
use omavision_core::index::{Category, Index, Item, Kind};
use omavision_core::keys::KeyCodes;
use omavision_core::meta::Meta;
use omavision_core::session::{enriched, handle_key, KeyOutcome, Redraw};

fn codes() -> KeyCodes {
    KeyCodes {
        up: '\u{F700}',
        down: '\u{F701}',
        left: '\u{F702}',
        right: '\u{F703}',
        page_up: '\u{F72C}',
        page_down: '\u{F72D}',
        home: '\u{F729}',
        end: '\u{F72B}',
        backspace: '\u{8}',
        escape: '\u{1b}',
        enter: '\n',
    }
}

fn browser() -> Browser {
    let film = |t: &str| Item { id: format!("films/{t}.mkv"), kind: Kind::Movie, title: t.into(), year: None, path: Some(format!("films/{t}.mkv")), seasons: vec![] };
    let index = Index { scanned_at: 0, categories: vec![Category { id: "films".into(), label: "Films".into(), items: vec![film("Arrival"), film("Ponyo")] }] };
    Browser::new(index, MetaMap::new(), "/lib".to_string())
}

#[test]
fn keys_are_swallowed_while_playing() {
    let mut b = browser();
    let k = codes();
    assert_eq!(handle_key(&mut b, true, "\n", &k), KeyOutcome::Taken);
    assert_eq!(b.view().selected, 0);
}

#[test]
fn keys_move_play_or_pass_through() {
    let mut b = browser();
    let k = codes();
    assert_eq!(handle_key(&mut b, false, &k.down.to_string(), &k), KeyOutcome::Taken);
    assert_eq!(handle_key(&mut b, false, "\n", &k), KeyOutcome::Play("/lib/films/Ponyo.mkv".to_string()));
    assert_eq!(handle_key(&mut b, false, "\u{1b}", &k), KeyOutcome::NotMine);
    assert_eq!(handle_key(&mut b, false, "\t", &k), KeyOutcome::NotMine);
}

#[test]
fn metadata_for_the_selected_item_redraws_its_card() {
    let mut b = browser();
    let m = Meta { title: "Arrival".into(), ..Default::default() };
    assert_eq!(enriched(&mut b, "films/Arrival.mkv".to_string(), 1, 2, Some(m)), (false, Redraw::Card));
    assert_eq!(enriched(&mut b, "films/Ponyo.mkv".to_string(), 2, 2, None), (true, Redraw::Nothing));
    assert!(b.meta().get("films/Arrival.mkv").is_some());
    assert!(b.meta().get("films/Ponyo.mkv").is_none());
}
