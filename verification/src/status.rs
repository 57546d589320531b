//! The words the window shows around the browser: the status line, the row numbers and notes,
//! and the count under the list.
use crate::text::{dec, dec_pad, push_dec, push_str};
use vstd::prelude::*;

verus! {

/// `{n} items · scan complete`.
pub fn scan_complete(n: usize) -> (s: String)
    ensures
        s@ == dec(n as nat) + " items · scan complete"@,
{
    let mut s = String::new();
    push_dec(&mut s, n as u64, 0);
    push_str(&mut s, " items · scan complete");
    assert(s@ =~= dec(n as nat) + " items · scan complete"@);
    s
}

/// `{n} items from cache · scanning…`.
pub fn from_cache(n: usize) -> (s: String)
    ensures
        s@ == dec(n as nat) + " items from cache · scanning…"@,
{
    let mut s = String::new();
    push_dec(&mut s, n as u64, 0);
    push_str(&mut s, " items from cache · scanning…");
    s
}

/// While metadata comes in: `fetching metadata {done}/{total}`; once the last item is in:
/// `{items} items · metadata complete`.
pub fn enrich_progress(done: usize, total: usize, items: usize) -> (s: String)
    ensures
        s@ == if done == total {
            dec(items as nat) + " items · metadata complete"@
        } else {
            "fetching metadata "@ + dec(done as nat) + seq!['/'] + dec(total as nat)
        },
{
    let mut s = String::new();
    if done == total {
        push_dec(&mut s, items as u64, 0);
        push_str(&mut s, " items · metadata complete");
    } else {
        push_str(&mut s, "fetching metadata ");
        push_dec(&mut s, done as u64, 0);
        crate::text::push_char(&mut s, '/');
        push_dec(&mut s, total as u64, 0);
    }
    s
}

/// A row's number, three digits at least: `007`.
pub fn row_number(n: usize) -> (s: String)
    ensures
        s@ == dec_pad(n as nat, 3),
{
    let mut s = String::new();
    push_dec(&mut s, n as u64, 3);
    s
}

/// What a row says after its title: a show's episode count, a season heading's, else nothing.
pub fn row_note(is_show: bool, heading: bool, episodes: usize) -> (s: String)
    ensures
        s@ == if is_show {
            dec(episodes as nat) + " ep."@
        } else if heading {
            dec(episodes as nat) + " episodes"@
        } else {
            seq![]
        },
{
    let mut s = String::new();
    if is_show {
        push_dec(&mut s, episodes as u64, 0);
        push_str(&mut s, " ep.");
    } else if heading {
        push_dec(&mut s, episodes as u64, 0);
        push_str(&mut s, " episodes");
    }
    s
}

/// The count under the list: `{shown} / {total}` in the list, `{total} episodes` in a show.
pub fn count_label(in_show: bool, shown: usize, total: usize) -> (s: String)
    ensures
        s@ == if in_show {
            dec(total as nat) + " episodes"@
        } else {
            dec(shown as nat) + " / "@ + dec(total as nat)
        },
{
    let mut s = String::new();
    if in_show {
        push_dec(&mut s, total as u64, 0);
        push_str(&mut s, " episodes");
    } else {
        push_dec(&mut s, shown as u64, 0);
        push_str(&mut s, " / ");
        push_dec(&mut s, total as u64, 0);
    }
    s
}

/// After playback: `player exited` when the player succeeded, else `player exited with
/// {status}`, the status as the system words it.
pub fn player_exited(success: bool, status: &str) -> (s: String)
    ensures
        s@ == if success { "player exited"@ } else { "player exited with "@ + status@ },
{
    let mut s = String::new();
    if success {
        push_str(&mut s, "player exited");
    } else {
        push_str(&mut s, "player exited with ");
        push_str(&mut s, status);
    }
    s
}

/// `playback failed: {error}`, when the player could not be run.
pub fn playback_failed(error: &str) -> (s: String)
    ensures
        s@ == "playback failed: "@ + error@,
{
    let mut s = String::new();
    push_str(&mut s, "playback failed: ");
    push_str(&mut s, error);
    s
}

/// `scan failed: {error}`.
pub fn scan_failed(error: &str) -> (s: String)
    ensures
        s@ == "scan failed: "@ + error@,
{
    let mut s = String::new();
    push_str(&mut s, "scan failed: ");
    push_str(&mut s, error);
    s
}

/// The status line when there is no TMDB credential: what it said, then
/// ` · no TMDB key in env or {key file}`.
pub fn no_key(status: &str, key_file: &str) -> (s: String)
    ensures
        s@ == status@ + " · no TMDB key in env or "@ + key_file@,
{
    let mut s = String::new();
    push_str(&mut s, status);
    push_str(&mut s, " · no TMDB key in env or ");
    push_str(&mut s, key_file);
    assert(s@ =~= status@ + " · no TMDB key in env or "@ + key_file@);
    s
}

} // verus!

