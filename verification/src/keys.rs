//! Keys: which key text the browser understands, and the key names a replay script uses. The
//! characters a window system sends for its special keys are handed in as `KeyCodes`.
use crate::browse::Action;
use crate::text::{chars_of, string_of, words, words_of};
use vstd::prelude::*;

verus! {

/// The character the window system sends for each special key.
#[derive(Debug, Clone, Copy)]
pub struct KeyCodes {
    pub up: char,
    pub down: char,
    pub left: char,
    pub right: char,
    pub page_up: char,
    pub page_down: char,
    pub home: char,
    pub end: char,
    pub backspace: char,
    pub escape: char,
    pub enter: char,
}

/// The Unicode control characters (`char::is_control`, general category Cc).
pub open spec fn is_control_spec(c: char) -> bool {
    (c as u32) <= 0x1f || (0x7f <= (c as u32) && (c as u32) <= 0x9f)
}

/// What key text means to the browser, going by its first character: a special key, else a
/// single printable character typed into the filter; anything else is not the browser's.
pub open spec fn action_spec(text: Seq<char>, k: KeyCodes) -> Option<Action> {
    if text.len() == 0 {
        None
    } else {
        let c = text[0];
        if c == k.down {
            Some(Action::Down)
        } else if c == k.up {
            Some(Action::Up)
        } else if c == k.page_down {
            Some(Action::Page(10))
        } else if c == k.page_up {
            Some(Action::Page(-10i32))
        } else if c == k.home {
            Some(Action::Home)
        } else if c == k.end {
            Some(Action::End)
        } else if c == k.right {
            Some(Action::NextTab)
        } else if c == k.left {
            Some(Action::PrevTab)
        } else if c == k.backspace {
            Some(Action::Backspace)
        } else if c == k.escape {
            Some(Action::Clear)
        } else if c == k.enter {
            Some(Action::Activate)
        } else if !is_control_spec(c) && text.len() == 1 {
            Some(Action::Type(c))
        } else {
            None
        }
    }
}

/// Keys the browser understands. Anything else belongs to the window.
pub fn action_for(text: &str, keys: &KeyCodes) -> (r: Option<Action>)
    ensures
        r == action_spec(text@, *keys),
{
    let cs = chars_of(text);
    if cs.len() == 0 {
        return None;
    }
    let c = cs[0];
    if c == keys.down {
        Some(Action::Down)
    } else if c == keys.up {
        Some(Action::Up)
    } else if c == keys.page_down {
        Some(Action::Page(10))
    } else if c == keys.page_up {
        Some(Action::Page(-10))
    } else if c == keys.home {
        Some(Action::Home)
    } else if c == keys.end {
        Some(Action::End)
    } else if c == keys.right {
        Some(Action::NextTab)
    } else if c == keys.left {
        Some(Action::PrevTab)
    } else if c == keys.backspace {
        Some(Action::Backspace)
    } else if c == keys.escape {
        Some(Action::Clear)
    } else if c == keys.enter {
        Some(Action::Activate)
    } else {
        let n = c as u32;
        let control = n <= 0x1f || (0x7f <= n && n <= 0x9f);
        if !control && cs.len() == 1 {
            Some(Action::Type(c))
        } else {
            None
        }
    }
}

/// The key text a replay name stands for: the named special keys, `Space` for a space, and
/// any other name typed as it is.
pub open spec fn replay_text_spec(name: Seq<char>, k: KeyCodes) -> Seq<char> {
    if name == "Up"@ {
        seq![k.up]
    } else if name == "Down"@ {
        seq![k.down]
    } else if name == "Left"@ {
        seq![k.left]
    } else if name == "Right"@ {
        seq![k.right]
    } else if name == "Return"@ || name == "Enter"@ {
        seq![k.enter]
    } else if name == "Escape"@ || name == "Esc"@ {
        seq![k.escape]
    } else if name == "Backspace"@ {
        seq![k.backspace]
    } else if name == "PageUp"@ {
        seq![k.page_up]
    } else if name == "PageDown"@ {
        seq![k.page_down]
    } else if name == "Home"@ {
        seq![k.home]
    } else if name == "End"@ {
        seq![k.end]
    } else if name == "Space"@ {
        seq![' ']
    } else {
        name
    }
}

fn replay_text(name: &str, k: &KeyCodes) -> (r: String)
    ensures
        r@ == replay_text_spec(name@, *k),
{
    let is = |n: &str| -> (b: bool)
        ensures
            b == (name@ == n@),
        { crate::text::str_eq(name, n) };
    let one = |c: char| -> (s: String)
        ensures
            s@ == seq![c],
        {
            let mut s = String::new();
            crate::text::push_char(&mut s, c);
            s
        };
    if is("Up") {
        one(k.up)
    } else if is("Down") {
        one(k.down)
    } else if is("Left") {
        one(k.left)
    } else if is("Right") {
        one(k.right)
    } else if is("Return") || is("Enter") {
        one(k.enter)
    } else if is("Escape") || is("Esc") {
        one(k.escape)
    } else if is("Backspace") {
        one(k.backspace)
    } else if is("PageUp") {
        one(k.page_up)
    } else if is("PageDown") {
        one(k.page_down)
    } else if is("Home") {
        one(k.home)
    } else if is("End") {
        one(k.end)
    } else if is("Space") {
        one(' ')
    } else {
        name.to_string()
    }
}

/// A replay script, `Right w i c k Down Return`: one key per white-space separated name,
/// as the key text the window would send.
pub fn replay_keys(script: &str, k: &KeyCodes) -> (r: Vec<String>)
    ensures
        crate::tmdb::views(r@) == words(script@).map_values(|w: Seq<char>| replay_text_spec(w, *k)),
{
    let cs = chars_of(script);
    let ws = words_of(&cs);
    let ghost wv = ws@.map_values(|w: Vec<char>| w@);
    let mut out: Vec<String> = Vec::new();
    let mut i: usize = 0;
    while i < ws.len()
        invariant
            i <= ws@.len(),
            wv == ws@.map_values(|w: Vec<char>| w@),
            wv == words(script@),
            crate::tmdb::views(out@) == wv.take(i as int).map_values(|w: Seq<char>| replay_text_spec(w, *k)),
        decreases ws@.len() - i,
    {
        let name = string_of(ws[i].as_slice());
        let t = replay_text(name.as_str(), k);
        let ghost before = out@;
        out.push(t);
        proof {
            assert(wv[i as int] == name@);
            assert(crate::tmdb::views(out@) =~= crate::tmdb::views(before).push(t@));
            assert(wv.take(i + 1) =~= wv.take(i as int).push(wv[i as int]));
            assert(wv.take(i + 1).map_values(|w: Seq<char>| replay_text_spec(w, *k)) =~= wv.take(i as int).map_values(
                |w: Seq<char>| replay_text_spec(w, *k),
            ).push(replay_text_spec(wv[i as int], *k)));
        }
        i = i + 1;
    }
    assert(wv.take(i as int) =~= wv);
    out
}

} // verus!
