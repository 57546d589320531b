//! The window's decisions around the browser: what a key comes to while a video plays or
//! not, and what to redraw when metadata comes in.
use crate::browse::{apply_spec, selected_item_spec, Action, Browser, Effect, EffectSpec};
use crate::keys::{action_for, action_spec, KeyCodes};
use crate::meta::Meta;
use vstd::prelude::*;

verus! {

/// What a key press comes to.
#[derive(Debug, Clone, PartialEq, Eq)]
pub enum KeyOutcome {
    /// The key was taken; redraw.
    Taken,
    /// Not the browser's: the window may use it.
    NotMine,
    /// Play this file.
    Play(String),
}

/// What to redraw after metadata comes in.
#[derive(Debug, Clone, Copy, PartialEq, Eq, Structural)]
pub enum Redraw {
    Nothing,
    Card,
    All,
}

/// The key outcome an effect of the browser comes to.
pub open spec fn outcome_of(r: KeyOutcome, e: Option<EffectSpec>) -> bool {
    match (r, e) {
        (KeyOutcome::Taken, None) => true,
        (KeyOutcome::NotMine, Some(EffectSpec::Unhandled)) => true,
        (KeyOutcome::Play(p), Some(EffectSpec::Play(q))) => p@ == q,
        _ => false,
    }
}

/// The id of the item the card is about: the open show, else the selected line.
pub open spec fn selected_id_spec(b: Browser) -> Option<Seq<char>> {
    match b.state().open {
        Some((id, _)) => Some(id),
        None => match selected_item_spec(b.index_spec(), b.state()) {
            Some(it) => Some(it.id@),
            None => None,
        },
    }
}

/// A key: swallowed while a video plays; else the browser's action for it, if it has one.
pub fn handle_key(b: &mut Browser, playing: bool, text: &str, keys: &KeyCodes) -> (r: KeyOutcome)
    ensures
        final(b).index_spec() == old(b).index_spec(),
        final(b).meta_spec() == old(b).meta_spec(),
        final(b).root_spec() == old(b).root_spec(),
        playing ==> r == KeyOutcome::Taken && final(b).state() == old(b).state(),
        !playing ==> match action_spec(text@, *keys) {
            None => r == KeyOutcome::NotMine && final(b).state() == old(b).state(),
            Some(a) => {
                let (st, e) = apply_spec(old(b).index_spec(), old(b).meta_spec(), old(b).root_spec(), old(b).state(), a);
                final(b).state() == st && outcome_of(r, e)
            },
        },
{
    if playing {
        return KeyOutcome::Taken;
    }
    match action_for(text, keys) {
        None => KeyOutcome::NotMine,
        Some(a) => match b.apply(a) {
            Some(Effect::Unhandled) => KeyOutcome::NotMine,
            Some(Effect::Play(p)) => KeyOutcome::Play(p),
            None => KeyOutcome::Taken,
        },
    }
}

/// Metadata came in for an item, or could not be had: store it, and say whether enrichment
/// is over and what to redraw: everything when the item is the open show, its card when it
/// is the selected line, nothing otherwise.
pub fn enriched(b: &mut Browser, id: String, done: usize, total: usize, meta: Option<Meta>) -> (r: (bool, Redraw))
    ensures
        final(b).index_spec() == old(b).index_spec(),
        final(b).root_spec() == old(b).root_spec(),
        final(b).state() == old(b).state(),
        final(b).meta_spec() == match meta {
            Some(m) => old(b).meta_spec().insert(id@, m),
            None => old(b).meta_spec(),
        },
        r.0 == (done == total),
        r.1 == if selected_id_spec(*old(b)) == Some(id@) {
            if old(b).state().open is Some { Redraw::All } else { Redraw::Card }
        } else {
            Redraw::Nothing
        },
{
    let ghost idv = id@;
    let same = match b.selected_id() {
        Some(s) => crate::text::str_eq(s, id.as_str()),
        None => false,
    };
    let redraw = if same {
        if b.is_in_show() {
            Redraw::All
        } else {
            Redraw::Card
        }
    } else {
        Redraw::Nothing
    };
    if let Some(m) = meta {
        b.set_meta(id, m);
    }
    (done == total, redraw)
}

} // verus!
