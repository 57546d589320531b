use omavision_core::browse::Action;
use omavision_core::keys::{action_for, replay_keys, KeyCodes};

/// The private-use characters a window system sends for its function keys.
fn codes() -> KeyCodes {
    KeyCodes {
        up: '\u{F700}',
        down: '\u{F701}',
        left: '\u{F702}',
        right: '\u{F703}',
        page_up: '\u{F72C}',
        page_down: '\u{F72D}',
        home: '\u{F729}',
        end: '\u{F72B}',
        backspace: '\u{8}',
        escape: '\u{1b}',
        enter: '\n',
    }
}

#[test]
fn replayed_keys_map_to_actions() {
    let k = codes();
    assert_eq!(action_for(&k.left.to_string(), &k), Some(Action::PrevTab));
    assert_eq!(action_for(&k.enter.to_string(), &k), Some(Action::Activate));
    assert_eq!(action_for("a", &k), Some(Action::Type('a')));
}

#[test]
fn control_characters_and_longer_text_are_not_typed() {
    let k = codes();
    assert_eq!(action_for("\t", &k), None);
    assert_eq!(action_for("ab", &k), None);
    assert_eq!(action_for("", &k), None);
    assert_eq!(action_for(&k.page_up.to_string(), &k), Some(Action::Page(-10)));
    assert_eq!(action_for(&k.page_down.to_string(), &k), Some(Action::Page(10)));
}

#[test]
fn a_replay_script_names_keys() {
    let k = codes();
    let keys = replay_keys("Right w  Space Down Return Esc Bogus", &k);
    assert_eq!(keys, vec!["\u{F703}".to_string(), "w".into(), " ".into(), "\u{F701}".into(), "\n".into(), "\u{1b}".into(), "Bogus".into()]);
    let actions: Vec<Option<Action>> = keys.iter().map(|t| action_for(t, &k)).collect();
    assert_eq!(
        actions,
        vec![Some(Action::NextTab), Some(Action::Type('w')), Some(Action::Type(' ')), Some(Action::Down), Some(Action::Activate), Some(Action::Clear), None]
    );
}
