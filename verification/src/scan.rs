//! A scan turns what is on disk into an index. Walking the disk is the caller's part: it
//! hands over the library's folder names, then each category's files in walk order.
use crate::config::Config;
use crate::index::{Category, Episode, EpisodeView, Index, Item, ItemView, Kind, Season, SeasonView};
use crate::parse::{nfc, parse_stem, spec_nfc, Parsed, ParsedSpec};
use crate::text::{chars_of, eq_ascii_nocase, spec_to_lowercase, to_lowercase};
use crate::tmdb::views;
use vstd::prelude::*;

verus! {

// ---------------------------------------------------------------------------------------------
// Orders

/// `a` sorts strictly before `b`, character by character (the order of `str`).
pub open spec fn lex_lt(a: Seq<char>, b: Seq<char>) -> bool
    decreases a.len(),
{
    if b.len() == 0 {
        false
    } else if a.len() == 0 {
        true
    } else if a[0] != b[0] {
        a[0] < b[0]
    } else {
        lex_lt(a.drop_first(), b.drop_first())
    }
}

pub fn lex_less(a: &Vec<char>, b: &Vec<char>) -> (r: bool)
    ensures
        r == lex_lt(a@, b@),
{
    let mut i: usize = 0;
    assert(a@.skip(0) =~= a@);
    assert(b@.skip(0) =~= b@);
    while i < a.len() && i < b.len() && a[i] == b[i]
        invariant
            i <= a@.len(),
            i <= b@.len(),
            lex_lt(a@, b@) == lex_lt(a@.skip(i as int), b@.skip(i as int)),
        decreases a@.len() - i,
    {
        assert(a@.skip(i as int).drop_first() =~= a@.skip(i + 1));
        assert(b@.skip(i as int).drop_first() =~= b@.skip(i + 1));
        i = i + 1;
    }
    if i == b.len() {
        false
    } else if i == a.len() {
        true
    } else {
        a[i] < b[i]
    }
}

/// `x` put into `s` after every element it does not sort before: a stable insertion.
pub open spec fn insert_stable<T>(s: Seq<T>, x: T, lt: spec_fn(T, T) -> bool) -> Seq<T>
    decreases s.len(),
{
    if s.len() == 0 {
        seq![x]
    } else if lt(x, s.last()) {
        insert_stable(s.drop_last(), x, lt).push(s.last())
    } else {
        s.push(x)
    }
}

/// The stable sort of `s` by `lt`: elements that do not sort apart keep their order.
pub open spec fn sort_stable<T>(s: Seq<T>, lt: spec_fn(T, T) -> bool) -> Seq<T>
    decreases s.len(),
{
    if s.len() == 0 {
        s
    } else {
        insert_stable(sort_stable(s.drop_last(), lt), s.last(), lt)
    }
}

/// Where a stable insertion lands: after the last element `x` does not sort before.
pub proof fn lemma_insert_at<T>(s: Seq<T>, x: T, lt: spec_fn(T, T) -> bool, p: int)
    requires
        0 <= p <= s.len(),
        forall|j: int| p <= j < s.len() ==> lt(x, #[trigger] s[j]),
        p == 0 || !lt(x, s[p - 1]),
    ensures
        insert_stable(s, x, lt) == s.take(p).push(x) + s.skip(p),
    decreases s.len() - p,
{
    if p == s.len() {
        if s.len() > 0 {
            assert(!lt(x, s.last()));
        }
        assert(s.take(p) =~= s);
        assert(s.skip(p) =~= Seq::<T>::empty());
        assert(s.take(p).push(x) + s.skip(p) =~= s.push(x));
    } else {
        assert(lt(x, s.last()));
        lemma_insert_at(s.drop_last(), x, lt, p);
        assert(s.drop_last().take(p) =~= s.take(p));
        assert(s.drop_last().skip(p).push(s.last()) =~= s.skip(p));
        assert((s.take(p).push(x) + s.drop_last().skip(p)).push(s.last()) =~= s.take(p).push(x) + s.skip(p));
    }
}

// ---------------------------------------------------------------------------------------------
// Categories

/// Dot files, dot directories and macOS AppleDouble `._*` files are never media.
pub open spec fn hidden_spec(name: Seq<char>) -> bool {
    name.len() > 0 && name[0] == '.'
}

pub fn hidden(name: &str) -> (r: bool)
    ensures
        r == hidden_spec(name@),
{
    let cs = chars_of(name);
    cs.len() > 0 && cs[0] == '.'
}

/// Position in the configured order, case aside, with unlisted categories after every listed
/// one.
pub open spec fn rank_spec(order: Seq<Seq<char>>, name: Seq<char>) -> nat
    decreases order.len(),
{
    if order.len() == 0 {
        0
    } else if eq_ascii_nocase(order[0], name) {
        0
    } else {
        1 + rank_spec(order.drop_first(), name)
    }
}

pub fn rank(order: &Vec<String>, name: &str) -> (r: usize)
    ensures
        r == rank_spec(views(order@), name@),
{
    let ghost o = views(order@);
    let mut i: usize = 0;
    assert(o.skip(0) =~= o);
    while i < order.len()
        invariant
            i <= order@.len(),
            o == views(order@),
            rank_spec(o, name@) == i + rank_spec(o.skip(i as int), name@),
        decreases order@.len() - i,
    {
        assert(o.skip(i as int).drop_first() =~= o.skip(i + 1));
        assert(o.skip(i as int)[0] == order@[i as int]@);
        if crate::text::eq_ignore_ascii_case(order[i].as_str(), name) {
            return i;
        }
        i = i + 1;
    }
    i
}

/// Folder names sort by their configured rank, then by their lower-case form.
pub open spec fn folder_lt(order: Seq<Seq<char>>) -> spec_fn(Seq<char>, Seq<char>) -> bool {
    |a: Seq<char>, b: Seq<char>|
        rank_spec(order, a) < rank_spec(order, b) || (rank_spec(order, a) == rank_spec(order, b)
            && lex_lt(spec_to_lowercase(a), spec_to_lowercase(b)))
}

/// The folders that are not hidden, in order.
pub open spec fn visible(names: Seq<Seq<char>>) -> Seq<Seq<char>>
    decreases names.len(),
{
    if names.len() == 0 {
        seq![]
    } else if hidden_spec(names.last()) {
        visible(names.drop_last())
    } else {
        visible(names.drop_last()).push(names.last())
    }
}

/// The category folders in display order: the configured ones first, in the configured
/// order, then the rest alphabetically, case aside; hidden folders are left out.
pub fn category_order(order: &Vec<String>, names: &Vec<String>) -> (r: Vec<String>)
    ensures
        views(r@) == sort_stable(visible(views(names@)), folder_lt(views(order@))),
{
    let ghost o = views(order@);
    let ghost lt = folder_lt(o);
    let ghost ns = views(names@);
    let mut out: Vec<String> = Vec::new();
    let mut ranks: Vec<usize> = Vec::new();
    let mut lows: Vec<Vec<char>> = Vec::new();
    let mut i: usize = 0;
    while i < names.len()
        invariant
            i <= names@.len(),
            o == views(order@),
            lt == folder_lt(o),
            ns == views(names@),
            views(out@) == sort_stable(visible(ns.take(i as int)), lt),
            ranks@.len() == out@.len(),
            lows@.len() == out@.len(),
            forall|j: int| 0 <= j < ranks@.len() ==> #[trigger] ranks@[j] == rank_spec(o, out@[j]@),
            forall|j: int| 0 <= j < lows@.len() ==> #[trigger] lows@[j]@ == spec_to_lowercase(out@[j]@),
        decreases names@.len() - i,
    {
        proof {
            assert(ns.take(i + 1).drop_last() =~= ns.take(i as int));
            assert(ns.take(i + 1).last() == names@[i as int]@);
        }
        let name = &names[i];
        let ghost vis = visible(ns.take(i as int));
        if !hidden(name.as_str()) {
            proof {
                assert(visible(ns.take(i + 1)) == vis.push(name@));
                assert(vis.push(name@).drop_last() =~= vis);
            }
            let rk = rank(order, name.as_str());
            let low = chars_of(to_lowercase(name.as_str()).as_str());
            let ghost s = views(out@);
            let mut p: usize = out.len();
            while p > 0 && (rk < ranks[p - 1] || (rk == ranks[p - 1] && lex_less(&low, &lows[p - 1])))
                invariant
                    p <= out@.len(),
                    ranks@.len() == out@.len(),
                    lows@.len() == out@.len(),
                    s == views(out@),
                    forall|j: int| 0 <= j < ranks@.len() ==> #[trigger] ranks@[j] == rank_spec(o, out@[j]@),
                    forall|j: int| 0 <= j < lows@.len() ==> #[trigger] lows@[j]@ == spec_to_lowercase(out@[j]@),
                    rk == rank_spec(o, name@),
                    low@ == spec_to_lowercase(name@),
                    lt == folder_lt(o),
                    forall|j: int| p <= j < s.len() ==> lt(name@, #[trigger] s[j]),
                decreases p,
            {
                assert(ranks@[p - 1] == rank_spec(o, out@[p - 1]@));
                assert(lows@[p - 1]@ == spec_to_lowercase(out@[p - 1]@));
                p = p - 1;
            }
            proof {
                if p > 0 {
                    assert(ranks@[p - 1] == rank_spec(o, out@[p - 1]@));
                    assert(lows@[p - 1]@ == spec_to_lowercase(out@[p - 1]@));
                    assert(s[p - 1] == out@[p - 1]@);
                }
                lemma_insert_at(s, name@, lt, p as int);
            }
            let ghost rb = ranks@;
            let ghost lb = lows@;
            let ghost ob = out@;
            out.insert(p, name.clone());
            ranks.insert(p, rk);
            lows.insert(p, low);
            proof {
                assert(views(out@) =~= s.take(p as int).push(name@) + s.skip(p as int));
                assert forall|j: int| 0 <= j < ranks@.len() implies #[trigger] ranks@[j] == rank_spec(o, out@[j]@) by {
                    if j < p {
                        assert(ranks@[j] == rb[j] && out@[j] == ob[j]);
                    } else if j > p {
                        assert(ranks@[j] == rb[j - 1] && out@[j] == ob[j - 1]);
                    }
                }
                assert forall|j: int| 0 <= j < lows@.len() implies #[trigger] lows@[j]@ == spec_to_lowercase(out@[j]@) by {
                    if j < p {
                        assert(lows@[j] == lb[j] && out@[j] == ob[j]);
                    } else if j > p {
                        assert(lows@[j] == lb[j - 1] && out@[j] == ob[j - 1]);
                    }
                }
            }
        }
        i = i + 1;
    }
    assert(ns.take(i as int) =~= ns);
    out
}

/// `char::to_uppercase` of one character, which may give several.
pub uninterp spec fn spec_char_upper(c: char) -> Seq<char>;

/// `char::to_uppercase`, collected. Claimed: the result is the name above applied to the
/// character; it depends on the character alone.
#[verifier::external_body]
fn char_upper(c: char) -> (r: String)
    ensures
        r@ == spec_char_upper(c),
{
    c.to_uppercase().collect::<String>()
}

/// Dashes and underscores read as spaces.
pub open spec fn spaced_char(c: char) -> char {
    if c == '-' || c == '_' {
        ' '
    } else {
        c
    }
}

/// A folder name as a label: dashes and underscores as spaces, the first letter upper case.
pub open spec fn label_spec(folder: Seq<char>) -> Seq<char> {
    let w = folder.map_values(|c: char| spaced_char(c));
    if w.len() == 0 {
        seq![]
    } else {
        spec_char_upper(w[0]) + w.drop_first()
    }
}

pub fn label_for(folder: &str) -> (r: String)
    ensures
        r@ == label_spec(folder@),
{
    let cs = chars_of(folder);
    let ghost w = folder@.map_values(|c: char| spaced_char(c));
    if cs.len() == 0 {
        return String::new();
    }
    let first = if cs[0] == '-' || cs[0] == '_' {
        ' '
    } else {
        cs[0]
    };
    let mut out = char_upper(first);
    let mut i: usize = 1;
    while i < cs.len()
        invariant
            1 <= i <= cs@.len(),
            cs@ == folder@,
            w == folder@.map_values(|c: char| spaced_char(c)),
            out@ == spec_char_upper(w[0]) + w.subrange(1, i as int),
        decreases cs@.len() - i,
    {
        let c = if cs[i] == '-' || cs[i] == '_' {
            ' '
        } else {
            cs[i]
        };
        crate::text::push_char(&mut out, c);
        i = i + 1;
        assert(out@ =~= spec_char_upper(w[0]) + w.subrange(1, i as int));
    }
    assert(w.subrange(1, i as int) =~= w.drop_first());
    out
}


// ---------------------------------------------------------------------------------------------
// Grouping episodes into shows

/// `lex_lt` is a strict order: never both ways, never between equals.
pub proof fn lemma_lex_asym(a: Seq<char>, b: Seq<char>)
    ensures
        lex_lt(a, b) ==> !lex_lt(b, a) && a != b,
    decreases a.len(),
{
    if a.len() > 0 && b.len() > 0 && a[0] == b[0] {
        lemma_lex_asym(a.drop_first(), b.drop_first());
        if a.drop_first() != b.drop_first() {
        } else {
            assert(a =~= seq![a[0]] + a.drop_first());
            assert(b =~= seq![b[0]] + b.drop_first());
        }
    }
}

/// Lower-case character sequences sort totally: of two different ones, one comes first.
pub proof fn lemma_lex_total(a: Seq<char>, b: Seq<char>)
    ensures
        a != b ==> lex_lt(a, b) || lex_lt(b, a),
    decreases a.len(),
{
    if a.len() > 0 && b.len() > 0 && a[0] == b[0] {
        lemma_lex_total(a.drop_first(), b.drop_first());
        if a.drop_first() == b.drop_first() {
            assert(a =~= seq![a[0]] + a.drop_first());
            assert(b =~= seq![b[0]] + b.drop_first());
        }
    } else if a.len() == 0 && b.len() == 0 {
        assert(a =~= b);
    }
}

/// A show's seasons, ascending, each with its episodes in walk order: an episode joins its
/// season, or opens it in place (`BTreeMap::entry`).
pub open spec fn add_to_seasons(ss: Seq<(u16, Seq<EpisodeView>)>, e: EpisodeView) -> Seq<(u16, Seq<EpisodeView>)>
    decreases ss.len(),
{
    if ss.len() == 0 {
        seq![(e.season, seq![e])]
    } else if ss[0].0 == e.season {
        ss.update(0, (e.season, ss[0].1.push(e)))
    } else if e.season < ss[0].0 {
        seq![(e.season, seq![e])] + ss
    } else {
        seq![ss[0]] + add_to_seasons(ss.drop_first(), e)
    }
}

/// Shows by name, ascending, each with its seasons: an episode joins its show, or opens it in
/// place.
pub open spec fn add_to_groups(
    gs: Seq<(Seq<char>, Seq<(u16, Seq<EpisodeView>)>)>,
    show: Seq<char>,
    e: EpisodeView,
) -> Seq<(Seq<char>, Seq<(u16, Seq<EpisodeView>)>)>
    decreases gs.len(),
{
    if gs.len() == 0 {
        seq![(show, seq![(e.season, seq![e])])]
    } else if gs[0].0 == show {
        gs.update(0, (show, add_to_seasons(gs[0].1, e)))
    } else if lex_lt(show, gs[0].0) {
        seq![(show, seq![(e.season, seq![e])])] + gs
    } else {
        seq![gs[0]] + add_to_groups(gs.drop_first(), show, e)
    }
}

/// The episodes of a category grouped by show and season.
pub open spec fn groups_of(entries: Seq<(Seq<char>, EpisodeView)>) -> Seq<(Seq<char>, Seq<(u16, Seq<EpisodeView>)>)>
    decreases entries.len(),
{
    if entries.len() == 0 {
        seq![]
    } else {
        add_to_groups(groups_of(entries.drop_last()), entries.last().0, entries.last().1)
    }
}

pub open spec fn seasons_group_view(ss: Seq<(u16, Vec<Episode>)>) -> Seq<(u16, Seq<EpisodeView>)> {
    ss.map_values(|s: (u16, Vec<Episode>)| (s.0, crate::index::episodes_view(s.1@)))
}

pub open spec fn groups_view(gs: Seq<(String, Vec<(u16, Vec<Episode>)>)>) -> Seq<(Seq<char>, Seq<(u16, Seq<EpisodeView>)>)> {
    gs.map_values(|g: (String, Vec<(u16, Vec<Episode>)>)| (g.0@, seasons_group_view(g.1@)))
}

proof fn lemma_add_seasons_at(ss: Seq<(u16, Seq<EpisodeView>)>, e: EpisodeView, k: int)
    requires
        0 <= k <= ss.len(),
        forall|j: int| 0 <= j < k ==> (#[trigger] ss[j]).0 < e.season,
    ensures
        add_to_seasons(ss, e) == ss.take(k) + add_to_seasons(ss.skip(k), e),
    decreases k,
{
    if k == 0 {
        assert(ss.take(0) + ss.skip(0) =~= ss);
        assert(ss.skip(0) =~= ss);
    } else {
        assert(ss[0].0 < e.season);
        lemma_add_seasons_at(ss.drop_first(), e, k - 1);
        assert(ss.drop_first().skip(k - 1) =~= ss.skip(k));
        assert(seq![ss[0]] + ss.drop_first().take(k - 1) =~= ss.take(k));
        assert(seq![ss[0]] + (ss.drop_first().take(k - 1) + add_to_seasons(ss.skip(k), e))
            =~= ss.take(k) + add_to_seasons(ss.skip(k), e));
    }
}

proof fn lemma_add_groups_at(gs: Seq<(Seq<char>, Seq<(u16, Seq<EpisodeView>)>)>, show: Seq<char>, e: EpisodeView, k: int)
    requires
        0 <= k <= gs.len(),
        forall|j: int| 0 <= j < k ==> lex_lt((#[trigger] gs[j]).0, show),
    ensures
        add_to_groups(gs, show, e) == gs.take(k) + add_to_groups(gs.skip(k), show, e),
    decreases k,
{
    if k == 0 {
        assert(gs.skip(0) =~= gs);
        assert(gs.take(0) + gs =~= gs);
    } else {
        assert(lex_lt(gs[0].0, show));
        lemma_lex_asym(gs[0].0, show);
        lemma_add_groups_at(gs.drop_first(), show, e, k - 1);
        assert(gs.drop_first().skip(k - 1) =~= gs.skip(k));
        assert(seq![gs[0]] + (gs.drop_first().take(k - 1) + add_to_groups(gs.skip(k), show, e))
            =~= gs.take(k) + add_to_groups(gs.skip(k), show, e));
    }
}

/// Adds an episode to a show's seasons.
fn add_season_episode(ss: &mut Vec<(u16, Vec<Episode>)>, e: Episode)
    ensures
        seasons_group_view(final(ss)@) == add_to_seasons(seasons_group_view(old(ss)@), crate::index::episode_view(e)),
{
    let ghost v0 = seasons_group_view(ss@);
    let ghost ev = crate::index::episode_view(e);
    let mut k: usize = 0;
    while k < ss.len() && ss[k].0 < e.season
        invariant
            k <= ss@.len(),
            v0 == seasons_group_view(ss@),
            ev == crate::index::episode_view(e),
            forall|j: int| 0 <= j < k ==> (#[trigger] v0[j]).0 < ev.season,
        decreases ss@.len() - k,
    {
        k = k + 1;
    }
    proof {
        lemma_add_seasons_at(v0, ev, k as int);
    }
    let ghost rest = v0.skip(k as int);
    if k < ss.len() && ss[k].0 == e.season {
        let mut entry = ss.remove(k);
        let ghost before = entry.1@;
        entry.1.push(e);
        ss.insert(k, entry);
        proof {
            assert(crate::index::episodes_view(entry.1@) =~= crate::index::episodes_view(before).push(ev));
            assert(rest[0] == v0[k as int]);
            assert(add_to_seasons(rest, ev) == rest.update(0, (ev.season, rest[0].1.push(ev))));
            assert(seasons_group_view(ss@) =~= v0.take(k as int) + add_to_seasons(rest, ev));
        }
    } else {
        let n = e.season;
        let ghost s0 = ss@;
        let mut one: Vec<Episode> = Vec::new();
        one.push(e);
        ss.insert(k, (n, one));
        proof {
            assert(crate::index::episodes_view(seq![e]) =~= seq![ev]);
            if k < s0.len() {
                assert(rest[0] == v0[k as int]);
            }
            assert(add_to_seasons(rest, ev) =~= seq![(ev.season, seq![ev])] + rest);
            assert(seasons_group_view(ss@) =~= v0.take(k as int) + add_to_seasons(rest, ev));
        }
    }
}

/// Adds an episode to its show.
fn add_show_episode(gs: &mut Vec<(String, Vec<(u16, Vec<Episode>)>)>, show: String, e: Episode)
    ensures
        groups_view(final(gs)@) == add_to_groups(groups_view(old(gs)@), show@, crate::index::episode_view(e)),
{
    let ghost v0 = groups_view(gs@);
    let ghost ev = crate::index::episode_view(e);
    let key = chars_of(show.as_str());
    let mut k: usize = 0;
    let mut stop = false;
    while k < gs.len() && !stop
        invariant
            k <= gs@.len(),
            v0 == groups_view(gs@),
            key@ == show@,
            forall|j: int| 0 <= j < k ==> lex_lt((#[trigger] v0[j]).0, show@),
            stop ==> k < gs@.len() && !lex_lt(v0[k as int].0, show@),
        decreases gs@.len() - k, (if stop { 0int } else { 1int }),
    {
        let other = chars_of(gs[k].0.as_str());
        if lex_less(&other, &key) {
            k = k + 1;
        } else {
            stop = true;
        }
    }
    proof {
        lemma_add_groups_at(v0, show@, ev, k as int);
    }
    let ghost rest = v0.skip(k as int);
    let same = k < gs.len() && crate::text::str_eq(gs[k].0.as_str(), show.as_str());
    if same {
        let mut entry = gs.remove(k);
        let ghost before = seasons_group_view(entry.1@);
        add_season_episode(&mut entry.1, e);
        gs.insert(k, entry);
        proof {
            assert(rest[0] == v0[k as int]);
            assert(groups_view(gs@) =~= v0.take(k as int) + add_to_groups(rest, show@, ev));
        }
    } else {
        let n = e.season;
        let mut ss: Vec<(u16, Vec<Episode>)> = Vec::new();
        let mut one: Vec<Episode> = Vec::new();
        one.push(e);
        ss.push((n, one));
        gs.insert(k, (show, ss));
        proof {
            assert(crate::index::episodes_view(seq![e]) =~= seq![ev]);
            assert(seasons_group_view(ss@) =~= seq![(ev.season, seq![ev])]);
            if k < v0.len() {
                assert(rest[0] == v0[k as int]);
                lemma_lex_total(rest[0].0, show@);
            }
            assert(groups_view(gs@) =~= v0.take(k as int) + add_to_groups(rest, show@, ev));
        }
    }
}


// ---------------------------------------------------------------------------------------------
// Items of a category

/// A file found under a category: its path relative to the library root, as the file system
/// spelled it, and its name without the extension.
#[derive(Debug, Clone)]
pub struct FileEntry {
    pub rel: String,
    pub stem: String,
}

pub open spec fn episode_lt() -> spec_fn(EpisodeView, EpisodeView) -> bool {
    |a: EpisodeView, b: EpisodeView| a.episode < b.episode
}

/// Items sort by title, case aside.
pub open spec fn title_lt() -> spec_fn(ItemView, ItemView) -> bool {
    |a: ItemView, b: ItemView| lex_lt(spec_to_lowercase(a.title), spec_to_lowercase(b.title))
}

/// A show as an item: its id is `<category>/<show>` composed, its seasons ascending, each
/// with its episodes by number.
pub open spec fn show_view(cat: Seq<char>, g: (Seq<char>, Seq<(u16, Seq<EpisodeView>)>)) -> ItemView {
    ItemView {
        id: spec_nfc(cat + seq!['/'] + g.0),
        kind: Kind::Show,
        title: g.0,
        year: None,
        path: None,
        seasons: g.1.map_values(
            |s: (u16, Seq<EpisodeView>)| SeasonView { number: s.0, episodes: sort_stable(s.1, episode_lt()) },
        ),
    }
}

/// A movie or a flat video as an item: its id is its path composed.
pub open spec fn file_item(rel: Seq<char>, p: ParsedSpec) -> Option<ItemView> {
    match p {
        ParsedSpec::Movie { title, year } => Some(
            ItemView { id: spec_nfc(rel), kind: Kind::Movie, title, year: Some(year), path: Some(rel), seasons: seq![] },
        ),
        ParsedSpec::Flat { title } => Some(
            ItemView { id: spec_nfc(rel), kind: Kind::Flat, title, year: None, path: Some(rel), seasons: seq![] },
        ),
        ParsedSpec::Episode { .. } => None,
    }
}

/// The movies and flat videos among the video files, in walk order.
pub open spec fn file_items(c: Config, fs: Seq<FileEntry>) -> Seq<ItemView>
    decreases fs.len(),
{
    if fs.len() == 0 {
        seq![]
    } else {
        let rest = file_items(c, fs.drop_last());
        let f = fs.last();
        if crate::config::video_spec(c, f.rel@) {
            match file_item(f.rel@, crate::parse::parse_stem_spec(f.stem@)) {
                Some(it) => rest.push(it),
                None => rest,
            }
        } else {
            rest
        }
    }
}

/// The episodes among the video files, with their show, in walk order.
pub open spec fn episode_entries(c: Config, fs: Seq<FileEntry>) -> Seq<(Seq<char>, EpisodeView)>
    decreases fs.len(),
{
    if fs.len() == 0 {
        seq![]
    } else {
        let rest = episode_entries(c, fs.drop_last());
        let f = fs.last();
        if crate::config::video_spec(c, f.rel@) {
            match crate::parse::parse_stem_spec(f.stem@) {
                ParsedSpec::Episode { show, season, episode } => rest.push(
                    (show, EpisodeView { season, episode, path: f.rel@, title: None }),
                ),
                _ => rest,
            }
        } else {
            rest
        }
    }
}

/// The items of a category: its movies and flat videos, then its shows by name, all sorted
/// by title, case aside, those with the same title keeping that order.
pub open spec fn category_items(c: Config, cat: Seq<char>, fs: Seq<FileEntry>) -> Seq<ItemView> {
    sort_stable(
        file_items(c, fs) + groups_of(episode_entries(c, fs)).map_values(
            |g: (Seq<char>, Seq<(u16, Seq<EpisodeView>)>)| show_view(cat, g),
        ),
        title_lt(),
    )
}

fn sort_episodes(eps: Vec<Episode>) -> (r: Vec<Episode>)
    ensures
        crate::index::episodes_view(r@) == sort_stable(crate::index::episodes_view(eps@), episode_lt()),
{
    let ghost all = eps@;
    let ghost ev = crate::index::episodes_view(all);
    let ghost lt = episode_lt();
    let mut out: Vec<Episode> = Vec::new();
    let mut src = eps;
    let mut taken: usize = 0;
    assert(all.len() == src.len());
    while src.len() > 0
        invariant
            all.len() <= usize::MAX,
            ev == crate::index::episodes_view(all),
            lt == episode_lt(),
            taken <= all.len(),
            src@ == all.skip(taken as int),
            crate::index::episodes_view(out@) == sort_stable(ev.take(taken as int), lt),
        decreases src@.len(),
    {
        let e = src.remove(0);
        let ghost x = crate::index::episode_view(e);
        proof {
            assert(all[taken as int] == e);
            assert(ev.take(taken + 1).drop_last() =~= ev.take(taken as int));
            assert(ev.take(taken + 1).last() == x);
            assert(src@ =~= all.skip(taken + 1));
        }
        let ghost s = crate::index::episodes_view(out@);
        let mut p: usize = out.len();
        while p > 0 && e.episode < out[p - 1].episode
            invariant
                p <= out@.len(),
                s == crate::index::episodes_view(out@),
                x == crate::index::episode_view(e),
                lt == episode_lt(),
                forall|j: int| p <= j < s.len() ==> lt(x, #[trigger] s[j]),
            decreases p,
        {
            p = p - 1;
        }
        proof {
            lemma_insert_at(s, x, lt, p as int);
        }
        out.insert(p, e);
        assert(crate::index::episodes_view(out@) =~= s.take(p as int).push(x) + s.skip(p as int));
        taken = taken + 1;
    }
    assert(all.skip(taken as int).len() == 0);
    assert(ev.take(taken as int) =~= ev);
    out
}


fn show_item(cat: &str, g: (String, Vec<(u16, Vec<Episode>)>)) -> (it: Item)
    ensures
        crate::index::item_view(it) == show_view(cat@, (g.0@, seasons_group_view(g.1@))),
{
    let (show, seasons_in) = g;
    let ghost all = seasons_in@;
    let ghost target = seasons_group_view(all).map_values(
        |s: (u16, Seq<EpisodeView>)| SeasonView { number: s.0, episodes: sort_stable(s.1, episode_lt()) },
    );
    let mut seasons: Vec<Season> = Vec::new();
    let mut src = seasons_in;
    let mut taken: usize = 0;
    assert(all.len() == src.len());
    while src.len() > 0
        invariant
            all.len() <= usize::MAX,
            taken <= all.len(),
            src@ == all.skip(taken as int),
            target == seasons_group_view(all).map_values(
                |s: (u16, Seq<EpisodeView>)| SeasonView { number: s.0, episodes: sort_stable(s.1, episode_lt()) },
            ),
            seasons@.map_values(|s: Season| crate::index::season_view(s)) == target.take(taken as int),
        decreases src@.len(),
    {
        let (n, eps) = src.remove(0);
        proof {
            assert(all[taken as int] == (n, eps));
            assert(src@ =~= all.skip(taken + 1));
        }
        let sorted = sort_episodes(eps);
        let ghost before = seasons@;
        proof {
            assert(seasons_group_view(all)[taken as int] == (n, crate::index::episodes_view(eps@)));
            assert(target[taken as int] == SeasonView {
                number: n,
                episodes: sort_stable(crate::index::episodes_view(eps@), episode_lt()),
            });
        }
        seasons.push(Season { number: n, episodes: sorted });
        proof {
            assert(crate::index::season_view(seasons@.last()) == target[taken as int]);
            assert(seasons@.map_values(|s: Season| crate::index::season_view(s)) =~= before.map_values(
                |s: Season| crate::index::season_view(s),
            ).push(target[taken as int]));
            assert(target.take(taken + 1) =~= target.take(taken as int).push(target[taken as int]));
        }
        taken = taken + 1;
    }
    assert(all.skip(taken as int).len() == 0);
    assert(target.take(taken as int) =~= target);
    let mut idtext = cat.to_string();
    crate::text::push_char(&mut idtext, '/');
    crate::text::push_str(&mut idtext, show.as_str());
    assert(idtext@ =~= cat@ + seq!['/'] + show@);
    let id = nfc(idtext.as_str());
    Item { id, kind: Kind::Show, title: show, year: None, path: None, seasons }
}

fn sort_items(items: Vec<Item>) -> (r: Vec<Item>)
    ensures
        crate::index::items_view(r@) == sort_stable(crate::index::items_view(items@), title_lt()),
{
    let ghost all = items@;
    let ghost iv = crate::index::items_view(all);
    let ghost lt = title_lt();
    let mut out: Vec<Item> = Vec::new();
    let mut keys: Vec<Vec<char>> = Vec::new();
    let mut src = items;
    let mut taken: usize = 0;
    assert(all.len() == src.len());
    while src.len() > 0
        invariant
            all.len() <= usize::MAX,
            iv == crate::index::items_view(all),
            lt == title_lt(),
            taken <= all.len(),
            src@ == all.skip(taken as int),
            crate::index::items_view(out@) == sort_stable(iv.take(taken as int), lt),
            keys@.len() == out@.len(),
            forall|j: int| 0 <= j < keys@.len() ==> #[trigger] keys@[j]@ == spec_to_lowercase(out@[j].title@),
        decreases src@.len(),
    {
        let it = src.remove(0);
        let ghost x = crate::index::item_view(it);
        proof {
            assert(all[taken as int] == it);
            assert(iv.take(taken + 1).drop_last() =~= iv.take(taken as int));
            assert(iv.take(taken + 1).last() == x);
            assert(src@ =~= all.skip(taken + 1));
        }
        let key = chars_of(to_lowercase(it.title.as_str()).as_str());
        let ghost s = crate::index::items_view(out@);
        let mut p: usize = out.len();
        while p > 0 && lex_less(&key, &keys[p - 1])
            invariant
                p <= out@.len(),
                keys@.len() == out@.len(),
                s == crate::index::items_view(out@),
                forall|j: int| 0 <= j < keys@.len() ==> #[trigger] keys@[j]@ == spec_to_lowercase(out@[j].title@),
                x == crate::index::item_view(it),
                key@ == spec_to_lowercase(it.title@),
                lt == title_lt(),
                forall|j: int| p <= j < s.len() ==> lt(x, #[trigger] s[j]),
            decreases p,
        {
            assert(keys@[p - 1]@ == spec_to_lowercase(out@[p - 1].title@));
            p = p - 1;
        }
        proof {
            if p > 0 {
                assert(keys@[p - 1]@ == spec_to_lowercase(out@[p - 1].title@));
                assert(s[p - 1] == crate::index::item_view(out@[p - 1]));
            }
            lemma_insert_at(s, x, lt, p as int);
        }
        let ghost kb = keys@;
        let ghost ob = out@;
        out.insert(p, it);
        keys.insert(p, key);
        proof {
            assert(crate::index::items_view(out@) =~= s.take(p as int).push(x) + s.skip(p as int));
            assert forall|j: int| 0 <= j < keys@.len() implies #[trigger] keys@[j]@ == spec_to_lowercase(out@[j].title@) by {
                if j < p {
                    assert(keys@[j] == kb[j] && out@[j] == ob[j]);
                } else if j > p {
                    assert(keys@[j] == kb[j - 1] && out@[j] == ob[j - 1]);
                }
            }
        }
        taken = taken + 1;
    }
    assert(all.skip(taken as int).len() == 0);
    assert(iv.take(taken as int) =~= iv);
    out
}

/// The items of one category from its files in walk order: video files only; episodes
/// grouped into shows by season; everything sorted by title, case aside.
pub fn scan_category(config: &Config, cat: &str, files: &Vec<FileEntry>) -> (r: Vec<Item>)
    ensures
        crate::index::items_view(r@) == category_items(*config, cat@, files@),
{
    let ghost fs = files@;
    let mut items: Vec<Item> = Vec::new();
    let mut shows: Vec<(String, Vec<(u16, Vec<Episode>)>)> = Vec::new();
    let mut i: usize = 0;
    while i < files.len()
        invariant
            i <= fs.len(),
            fs == files@,
            crate::index::items_view(items@) == file_items(*config, fs.take(i as int)),
            groups_view(shows@) == groups_of(episode_entries(*config, fs.take(i as int))),
        decreases fs.len() - i,
    {
        let f = &files[i];
        proof {
            assert(fs.take(i + 1).drop_last() =~= fs.take(i as int));
            assert(fs.take(i + 1).last() == *f);
        }
        if config.is_video(f.rel.as_str()) {
            let p = parse_stem(f.stem.as_str());
            match p {
                Parsed::Episode { show, season, episode } => {
                    let ghost ev = EpisodeView { season, episode, path: f.rel@, title: None };
                    let e = Episode { season, episode, path: f.rel.clone(), title: None };
                    assert(crate::index::episode_view(e) == ev);
                    let ghost entries = episode_entries(*config, fs.take(i as int));
                    proof {
                        assert(episode_entries(*config, fs.take(i + 1)) == entries.push((show@, ev)));
                        assert(entries.push((show@, ev)).drop_last() =~= entries);
                    }
                    add_show_episode(&mut shows, show, e);
                },
                Parsed::Movie { title, year } => {
                    let it = Item {
                        id: nfc(f.rel.as_str()),
                        kind: Kind::Movie,
                        title,
                        year: Some(year),
                        path: Some(f.rel.clone()),
                        seasons: Vec::new(),
                    };
                    let ghost before = items@;
                    items.push(it);
                    assert(crate::index::items_view(items@) =~= crate::index::items_view(before).push(crate::index::item_view(it)));
                    assert(crate::index::item_view(it).seasons =~= seq![]);
                },
                Parsed::Flat { title } => {
                    let it = Item {
                        id: nfc(f.rel.as_str()),
                        kind: Kind::Flat,
                        title,
                        year: None,
                        path: Some(f.rel.clone()),
                        seasons: Vec::new(),
                    };
                    let ghost before = items@;
                    items.push(it);
                    assert(crate::index::items_view(items@) =~= crate::index::items_view(before).push(crate::index::item_view(it)));
                    assert(crate::index::item_view(it).seasons =~= seq![]);
                },
            }
        }
        i = i + 1;
    }
    assert(fs.take(i as int) =~= fs);
    let ghost files_part = crate::index::items_view(items@);
    let ghost gs = groups_view(shows@);
    let ghost shows_all = shows@;
    let mut src = shows;
    let mut taken: usize = 0;
    assert(shows_all.len() == src.len());
    while src.len() > 0
        invariant
            shows_all.len() <= usize::MAX,
            taken <= shows_all.len(),
            src@ == shows_all.skip(taken as int),
            gs == groups_view(shows_all),
            crate::index::items_view(items@) == files_part + gs.take(taken as int).map_values(
                |g: (Seq<char>, Seq<(u16, Seq<EpisodeView>)>)| show_view(cat@, g),
            ),
        decreases src@.len(),
    {
        let g = src.remove(0);
        proof {
            assert(shows_all[taken as int] == g);
            assert(src@ =~= shows_all.skip(taken + 1));
        }
        let it = show_item(cat, g);
        let ghost before = items@;
        items.push(it);
        proof {
            assert(gs[taken as int] == (g.0@, seasons_group_view(g.1@)));
            assert(crate::index::items_view(items@) =~= crate::index::items_view(before).push(crate::index::item_view(it)));
            assert(gs.take(taken + 1) =~= gs.take(taken as int).push(gs[taken as int]));
            assert(gs.take(taken + 1).map_values(|g: (Seq<char>, Seq<(u16, Seq<EpisodeView>)>)| show_view(cat@, g))
                =~= gs.take(taken as int).map_values(|g: (Seq<char>, Seq<(u16, Seq<EpisodeView>)>)| show_view(cat@, g)).push(
                show_view(cat@, gs[taken as int]),
            ));
            assert(crate::index::items_view(items@) =~= files_part + gs.take(taken + 1).map_values(
                |g: (Seq<char>, Seq<(u16, Seq<EpisodeView>)>)| show_view(cat@, g),
            ));
        }
        taken = taken + 1;
    }
    assert(shows_all.skip(taken as int).len() == 0);
    assert(gs.take(taken as int) =~= gs);
    sort_items(items)
}

/// A category: its folder name, its label and its items.
pub fn category(cat: &str, items: Vec<Item>) -> (c: Category)
    ensures
        c.id@ == cat@,
        c.label@ == label_spec(cat@),
        c.items@ == items@,
{
    Category { id: cat.to_string(), label: label_for(cat), items }
}

/// The index of a library from its categories, in the given order, each with its files in
/// walk order; stamped with the time of the call.
pub fn index_from(config: &Config, cats: &Vec<(String, Vec<FileEntry>)>) -> (r: Index)
    ensures
        r.categories@.len() == cats@.len(),
        forall|k: int| 0 <= k < cats@.len() ==> {
            &&& (#[trigger] r.categories@[k]).id@ == cats@[k].0@
            &&& r.categories@[k].label@ == label_spec(cats@[k].0@)
            &&& crate::index::items_view(r.categories@[k].items@) == category_items(*config, cats@[k].0@, cats@[k].1@)
        },
{
    let mut categories: Vec<Category> = Vec::new();
    let mut k: usize = 0;
    while k < cats.len()
        invariant
            k <= cats@.len(),
            categories@.len() == k,
            forall|j: int| 0 <= j < k ==> {
                &&& (#[trigger] categories@[j]).id@ == cats@[j].0@
                &&& categories@[j].label@ == label_spec(cats@[j].0@)
                &&& crate::index::items_view(categories@[j].items@) == category_items(*config, cats@[j].0@, cats@[j].1@)
            },
        decreases cats@.len() - k,
    {
        let name = cats[k].0.as_str();
        let items = scan_category(config, name, &cats[k].1);
        categories.push(category(name, items));
        k = k + 1;
    }
    Index { scanned_at: crate::now(), categories }
}


// ---------------------------------------------------------------------------------------------
// What the orders promise

/// No element sorts before one that precedes it.
pub open spec fn sorted_by<T>(s: Seq<T>, lt: spec_fn(T, T) -> bool) -> bool {
    forall|i: int, j: int| 0 <= i < j < s.len() ==> !lt(#[trigger] s[j], #[trigger] s[i])
}

/// A strict weak order: never both ways, and not sorting before is transitive.
pub open spec fn strict_weak<T>(lt: spec_fn(T, T) -> bool) -> bool {
    &&& forall|a: T, b: T| #[trigger] lt(a, b) ==> !lt(b, a)
    &&& forall|a: T, b: T, c: T| #![trigger lt(a, b), lt(b, c)] !lt(a, b) && !lt(b, c) ==> !lt(a, c)
}

proof fn lemma_insert_members<T>(s: Seq<T>, x: T, lt: spec_fn(T, T) -> bool)
    ensures
        insert_stable(s, x, lt).len() == s.len() + 1,
        forall|k: int| 0 <= k < insert_stable(s, x, lt).len() ==> #[trigger] insert_stable(s, x, lt)[k] == x
            || s.contains(insert_stable(s, x, lt)[k]),
    decreases s.len(),
{
    if s.len() > 0 && lt(x, s.last()) {
        lemma_insert_members(s.drop_last(), x, lt);
        let r = insert_stable(s, x, lt);
        let q = insert_stable(s.drop_last(), x, lt);
        assert forall|k: int| 0 <= k < r.len() implies #[trigger] r[k] == x || s.contains(r[k]) by {
            if k < q.len() {
                assert(r[k] == q[k]);
                if q[k] != x {
                    let w = choose|w: int| 0 <= w < s.drop_last().len() && s.drop_last()[w] == q[k];
                    assert(s[w] == q[k]);
                }
            } else {
                assert(r[k] == s[s.len() - 1]);
            }
        }
    } else if s.len() > 0 {
        let r = insert_stable(s, x, lt);
        assert forall|k: int| 0 <= k < r.len() implies #[trigger] r[k] == x || s.contains(r[k]) by {
            if k < s.len() {
                assert(r[k] == s[k]);
            }
        }
    }
}

proof fn lemma_insert_sorted<T>(s: Seq<T>, x: T, lt: spec_fn(T, T) -> bool)
    requires
        sorted_by(s, lt),
        strict_weak(lt),
    ensures
        sorted_by(insert_stable(s, x, lt), lt),
    decreases s.len(),
{
    if s.len() > 0 {
        let r = insert_stable(s, x, lt);
        if lt(x, s.last()) {
            let q = insert_stable(s.drop_last(), x, lt);
            lemma_insert_sorted(s.drop_last(), x, lt);
            lemma_insert_members(s.drop_last(), x, lt);
            assert forall|i: int, j: int| 0 <= i < j < r.len() implies !lt(#[trigger] r[j], #[trigger] r[i]) by {
                if j < q.len() {
                    assert(r[i] == q[i] && r[j] == q[j]);
                } else {
                    assert(r[j] == s.last());
                    assert(r[i] == q[i]);
                    if q[i] == x {
                    } else {
                        let w = choose|w: int| 0 <= w < s.drop_last().len() && s.drop_last()[w] == q[i];
                        assert(s[w] == q[i]);
                        assert(!lt(s[s.len() - 1], s[w]));
                    }
                }
            }
        } else {
            assert forall|i: int, j: int| 0 <= i < j < r.len() implies !lt(#[trigger] r[j], #[trigger] r[i]) by {
                if j < s.len() {
                    assert(r[i] == s[i] && r[j] == s[j]);
                } else {
                    assert(r[j] == x);
                    assert(r[i] == s[i]);
                    if i < s.len() - 1 {
                        assert(!lt(s[s.len() - 1], s[i]));
                        assert(!lt(x, s[s.len() - 1]));
                    }
                }
            }
        }
    }
}

/// A stable sort by a strict weak order is sorted.
pub proof fn lemma_sort_sorted<T>(s: Seq<T>, lt: spec_fn(T, T) -> bool)
    requires
        strict_weak(lt),
    ensures
        sorted_by(sort_stable(s, lt), lt),
    decreases s.len(),
{
    if s.len() > 0 {
        lemma_sort_sorted(s.drop_last(), lt);
        lemma_insert_sorted(sort_stable(s.drop_last(), lt), s.last(), lt);
    }
}

/// `lex_lt` is transitive.
pub proof fn lemma_lex_trans(a: Seq<char>, b: Seq<char>, c: Seq<char>)
    requires
        lex_lt(a, b),
        lex_lt(b, c),
    ensures
        lex_lt(a, c),
    decreases a.len(),
{
    if a.len() > 0 && b.len() > 0 && c.len() > 0 && a[0] == b[0] && b[0] == c[0] {
        lemma_lex_trans(a.drop_first(), b.drop_first(), c.drop_first());
    }
}

/// Not sorting before, character by character, is transitive.
pub proof fn lemma_lex_not_lt_trans(a: Seq<char>, b: Seq<char>, c: Seq<char>)
    requires
        !lex_lt(a, b),
        !lex_lt(b, c),
    ensures
        !lex_lt(a, c),
{
    lemma_lex_total(a, b);
    lemma_lex_total(b, c);
    if lex_lt(a, c) {
        if a == b {
        } else if b == c {
        } else {
            lemma_lex_trans(c, b, a);
            lemma_lex_asym(c, a);
        }
    }
}

proof fn lemma_title_lt_weak()
    ensures
        strict_weak(title_lt()),
{
    let lt = title_lt();
    assert forall|a: ItemView, b: ItemView| #[trigger] lt(a, b) implies !lt(b, a) by {
        lemma_lex_asym(spec_to_lowercase(a.title), spec_to_lowercase(b.title));
    }
    assert forall|a: ItemView, b: ItemView, c: ItemView| #![trigger lt(a, b), lt(b, c)] !lt(a, b) && !lt(b, c) implies !lt(a, c) by {
        lemma_lex_not_lt_trans(spec_to_lowercase(a.title), spec_to_lowercase(b.title), spec_to_lowercase(c.title));
    }
}

proof fn lemma_folder_lt_weak(order: Seq<Seq<char>>)
    ensures
        strict_weak(folder_lt(order)),
{
    let lt = folder_lt(order);
    assert forall|a: Seq<char>, b: Seq<char>| #[trigger] lt(a, b) implies !lt(b, a) by {
        lemma_lex_asym(spec_to_lowercase(a), spec_to_lowercase(b));
    }
    assert forall|a: Seq<char>, b: Seq<char>, c: Seq<char>| #![trigger lt(a, b), lt(b, c)] !lt(a, b) && !lt(b, c) implies !lt(a, c) by {
        if rank_spec(order, a) == rank_spec(order, b) && rank_spec(order, b) == rank_spec(order, c) {
            lemma_lex_not_lt_trans(spec_to_lowercase(a), spec_to_lowercase(b), spec_to_lowercase(c));
        }
    }
}

/// The configured categories come first, in the configured order, then the others
/// alphabetically, case aside: no category is listed after one it sorts before.
pub proof fn law_categories_come_in_display_order(order: Seq<Seq<char>>, names: Seq<Seq<char>>)
    ensures
        sorted_by(sort_stable(visible(names), folder_lt(order)), folder_lt(order)),
        forall|i: int, j: int|
            0 <= i < j < sort_stable(visible(names), folder_lt(order)).len() ==> {
                let a = #[trigger] sort_stable(visible(names), folder_lt(order))[i];
                let b = #[trigger] sort_stable(visible(names), folder_lt(order))[j];
                &&& rank_spec(order, a) <= rank_spec(order, b)
                &&& (rank_spec(order, a) == rank_spec(order, b) ==> !lex_lt(spec_to_lowercase(b), spec_to_lowercase(a)))
            },
{
    lemma_folder_lt_weak(order);
    lemma_sort_sorted(visible(names), folder_lt(order));
    let r = sort_stable(visible(names), folder_lt(order));
    assert forall|i: int, j: int| 0 <= i < j < r.len() implies {
        let a = #[trigger] r[i];
        let b = #[trigger] r[j];
        &&& rank_spec(order, a) <= rank_spec(order, b)
        &&& (rank_spec(order, a) == rank_spec(order, b) ==> !lex_lt(spec_to_lowercase(b), spec_to_lowercase(a)))
    } by {
        assert(!folder_lt(order)(r[j], r[i]));
    }
}

/// A category's items are sorted by title, case aside: no item comes after one whose
/// lower-cased title sorts after its own lower-cased title.
pub proof fn law_items_are_sorted_by_title(c: Config, cat: Seq<char>, fs: Seq<FileEntry>)
    ensures
        sorted_by(category_items(c, cat, fs), title_lt()),
        forall|i: int, j: int|
            0 <= i < j < category_items(c, cat, fs).len() ==> !lex_lt(
                spec_to_lowercase(#[trigger] category_items(c, cat, fs)[j].title),
                spec_to_lowercase(#[trigger] category_items(c, cat, fs)[i].title),
            ),
{
    lemma_title_lt_weak();
    lemma_sort_sorted(
        file_items(c, fs) + groups_of(episode_entries(c, fs)).map_values(
            |g: (Seq<char>, Seq<(u16, Seq<EpisodeView>)>)| show_view(cat, g),
        ),
        title_lt(),
    );
    let items = category_items(c, cat, fs);
    assert forall|i: int, j: int| 0 <= i < j < items.len() implies !lex_lt(
        spec_to_lowercase(#[trigger] items[j].title),
        spec_to_lowercase(#[trigger] items[i].title),
    ) by {
        assert(!title_lt()(items[j], items[i]));
    }
}

/// A season's episodes are sorted by number: in every season of a show, an episode never
/// comes before one with a smaller number.
pub proof fn law_episodes_are_sorted_by_number(eps: Seq<EpisodeView>)
    ensures
        sorted_by(sort_stable(eps, episode_lt()), episode_lt()),
        forall|i: int, j: int|
            0 <= i < j < sort_stable(eps, episode_lt()).len() ==> (#[trigger] sort_stable(eps, episode_lt())[i]).episode
                <= (#[trigger] sort_stable(eps, episode_lt())[j]).episode,
{
    lemma_sort_sorted(eps, episode_lt());
    let r = sort_stable(eps, episode_lt());
    assert forall|i: int, j: int| 0 <= i < j < r.len() implies (#[trigger] r[i]).episode <= (#[trigger] r[j]).episode by {
        assert(!episode_lt()(r[j], r[i]));
    }
}

/// A show's seasons each list their episodes by number.
pub proof fn law_a_show_lists_each_season_by_episode_number(
    cat: Seq<char>,
    g: (Seq<char>, Seq<(u16, Seq<EpisodeView>)>),
    k: int,
)
    requires
        0 <= k < show_view(cat, g).seasons.len(),
    ensures
        forall|i: int, j: int|
            0 <= i < j < show_view(cat, g).seasons[k].episodes.len() ==> (#[trigger] show_view(
                cat,
                g,
            ).seasons[k].episodes[i]).episode <= (#[trigger] show_view(cat, g).seasons[k].episodes[j]).episode,
{
    law_episodes_are_sorted_by_number(g.1[k].1);
    assert(show_view(cat, g).seasons[k].episodes == sort_stable(g.1[k].1, episode_lt()));
}


// ---------------------------------------------------------------------------------------------
// Nothing is lost

/// The sum of `w` over `s`.
pub open spec fn total<T>(s: Seq<T>, w: spec_fn(T) -> nat) -> nat
    decreases s.len(),
{
    if s.len() == 0 {
        0
    } else {
        total(s.drop_last(), w) + w(s.last())
    }
}

/// How many videos an item stands for: a show its episodes, anything else one.
pub open spec fn videos(it: ItemView) -> nat {
    if it.kind == Kind::Show {
        total(it.seasons, |s: SeasonView| s.episodes.len())
    } else {
        1
    }
}

/// The video files among a category's files.
pub open spec fn video_count(c: Config, fs: Seq<FileEntry>) -> nat
    decreases fs.len(),
{
    if fs.len() == 0 {
        0
    } else {
        video_count(c, fs.drop_last()) + if crate::config::video_spec(c, fs.last().rel@) { 1nat } else { 0nat }
    }
}

proof fn lemma_total_concat<T>(a: Seq<T>, b: Seq<T>, w: spec_fn(T) -> nat)
    ensures
        total(a + b, w) == total(a, w) + total(b, w),
    decreases b.len(),
{
    if b.len() == 0 {
        assert(a + b =~= a);
    } else {
        lemma_total_concat(a, b.drop_last(), w);
        assert((a + b).drop_last() =~= a + b.drop_last());
        assert((a + b).last() == b.last());
    }
}

proof fn lemma_total_insert<T>(s: Seq<T>, x: T, lt: spec_fn(T, T) -> bool, w: spec_fn(T) -> nat)
    ensures
        total(insert_stable(s, x, lt), w) == total(s, w) + w(x),
    decreases s.len(),
{
    if s.len() > 0 && lt(x, s.last()) {
        lemma_total_insert(s.drop_last(), x, lt, w);
        let q = insert_stable(s.drop_last(), x, lt);
        assert(q.push(s.last()).drop_last() =~= q);
    } else if s.len() > 0 {
        assert(s.push(x).drop_last() =~= s);
    } else {
        assert(seq![x].drop_last() =~= s);
    }
}

/// A stable sort keeps every element: any sum over them is the same.
pub proof fn lemma_total_sort<T>(s: Seq<T>, lt: spec_fn(T, T) -> bool, w: spec_fn(T) -> nat)
    ensures
        total(sort_stable(s, lt), w) == total(s, w),
    decreases s.len(),
{
    if s.len() > 0 {
        lemma_total_sort(s.drop_last(), lt, w);
        lemma_total_insert(sort_stable(s.drop_last(), lt), s.last(), lt, w);
    }
}

/// Episodes held by a show's seasons.
pub open spec fn season_eps(ss: Seq<(u16, Seq<EpisodeView>)>) -> nat
    decreases ss.len(),
{
    if ss.len() == 0 {
        0
    } else {
        ss[0].1.len() + season_eps(ss.drop_first())
    }
}

/// Episodes held by all shows.
pub open spec fn group_eps(gs: Seq<(Seq<char>, Seq<(u16, Seq<EpisodeView>)>)>) -> nat
    decreases gs.len(),
{
    if gs.len() == 0 {
        0
    } else {
        season_eps(gs[0].1) + group_eps(gs.drop_first())
    }
}

proof fn lemma_season_eps_front(ss: Seq<(u16, Seq<EpisodeView>)>, first: (u16, Seq<EpisodeView>))
    ensures
        season_eps(seq![first] + ss) == first.1.len() + season_eps(ss),
{
    let r = seq![first] + ss;
    assert(r.drop_first() =~= ss);
    assert(r[0] == first);
}

proof fn lemma_group_eps_front(
    gs: Seq<(Seq<char>, Seq<(u16, Seq<EpisodeView>)>)>,
    first: (Seq<char>, Seq<(u16, Seq<EpisodeView>)>),
)
    ensures
        group_eps(seq![first] + gs) == season_eps(first.1) + group_eps(gs),
{
    let r = seq![first] + gs;
    assert(r.drop_first() =~= gs);
    assert(r[0] == first);
}

proof fn lemma_one_season(e: EpisodeView)
    ensures
        season_eps(seq![(e.season, seq![e])]) == 1,
{
    let empty: Seq<(u16, Seq<EpisodeView>)> = seq![];
    lemma_season_eps_front(empty, (e.season, seq![e]));
    assert(seq![(e.season, seq![e])] + empty =~= seq![(e.season, seq![e])]);
    assert(season_eps(empty) == 0);
}

proof fn lemma_add_season_count(ss: Seq<(u16, Seq<EpisodeView>)>, e: EpisodeView)
    ensures
        season_eps(add_to_seasons(ss, e)) == season_eps(ss) + 1,
    decreases ss.len(),
{
    if ss.len() == 0 {
        lemma_one_season(e);
    } else {
        let rest = ss.drop_first();
        assert(ss =~= seq![ss[0]] + rest);
        lemma_season_eps_front(rest, ss[0]);
        if ss[0].0 == e.season {
            let r = ss.update(0, (e.season, ss[0].1.push(e)));
            assert(r =~= seq![(e.season, ss[0].1.push(e))] + rest);
            lemma_season_eps_front(rest, (e.season, ss[0].1.push(e)));
        } else if e.season < ss[0].0 {
            lemma_season_eps_front(ss, (e.season, seq![e]));
            lemma_one_season(e);
        } else {
            lemma_add_season_count(rest, e);
            lemma_season_eps_front(add_to_seasons(rest, e), ss[0]);
        }
    }
}

proof fn lemma_add_group_count(gs: Seq<(Seq<char>, Seq<(u16, Seq<EpisodeView>)>)>, show: Seq<char>, e: EpisodeView)
    ensures
        group_eps(add_to_groups(gs, show, e)) == group_eps(gs) + 1,
    decreases gs.len(),
{
    let one: Seq<(u16, Seq<EpisodeView>)> = seq![(e.season, seq![e])];
    lemma_one_season(e);
    let empty: Seq<(Seq<char>, Seq<(u16, Seq<EpisodeView>)>)> = seq![];
    if gs.len() == 0 {
        lemma_group_eps_front(empty, (show, one));
        assert(seq![(show, one)] + empty =~= seq![(show, one)]);
        assert(group_eps(empty) == 0);
    } else {
        let rest = gs.drop_first();
        assert(gs =~= seq![gs[0]] + rest);
        lemma_group_eps_front(rest, gs[0]);
        if gs[0].0 == show {
            lemma_add_season_count(gs[0].1, e);
            let r = gs.update(0, (show, add_to_seasons(gs[0].1, e)));
            assert(r =~= seq![(show, add_to_seasons(gs[0].1, e))] + rest);
            lemma_group_eps_front(rest, (show, add_to_seasons(gs[0].1, e)));
        } else if lex_lt(show, gs[0].0) {
            lemma_group_eps_front(gs, (show, one));
        } else {
            lemma_add_group_count(rest, show, e);
            lemma_group_eps_front(add_to_groups(rest, show, e), gs[0]);
        }
    }
}

proof fn lemma_groups_count(entries: Seq<(Seq<char>, EpisodeView)>)
    ensures
        group_eps(groups_of(entries)) == entries.len(),
    decreases entries.len(),
{
    if entries.len() > 0 {
        lemma_groups_count(entries.drop_last());
        lemma_add_group_count(groups_of(entries.drop_last()), entries.last().0, entries.last().1);
    } else {
        let empty: Seq<(Seq<char>, Seq<(u16, Seq<EpisodeView>)>)> = seq![];
        assert(groups_of(entries) == empty);
    }
}

proof fn lemma_total_front<T>(s: Seq<T>, x: T, w: spec_fn(T) -> nat)
    ensures
        total(seq![x] + s, w) == w(x) + total(s, w),
{
    lemma_total_concat(seq![x], s, w);
    let e: Seq<T> = seq![];
    assert(seq![x].drop_last() =~= e);
    assert(total(e, w) == 0);
}

proof fn lemma_show_seasons(ss: Seq<(u16, Seq<EpisodeView>)>)
    ensures
        total(
            ss.map_values(|s: (u16, Seq<EpisodeView>)| SeasonView { number: s.0, episodes: sort_stable(s.1, episode_lt()) }),
            |s: SeasonView| s.episodes.len(),
        ) == season_eps(ss),
    decreases ss.len(),
{
    let f = |s: (u16, Seq<EpisodeView>)| SeasonView { number: s.0, episodes: sort_stable(s.1, episode_lt()) };
    let w = |s: SeasonView| s.episodes.len();
    if ss.len() > 0 {
        let rest = ss.drop_first();
        lemma_show_seasons(rest);
        lemma_total_sort(ss[0].1, episode_lt(), |e: EpisodeView| 1nat);
        lemma_count_is_len(ss[0].1);
        lemma_count_is_len(sort_stable(ss[0].1, episode_lt()));
        assert(ss.map_values(f) =~= seq![f(ss[0])] + rest.map_values(f));
        lemma_total_front(rest.map_values(f), f(ss[0]), w);
        assert(ss =~= seq![ss[0]] + rest);
        lemma_season_eps_front(rest, ss[0]);
    } else {
        assert(ss.map_values(f).len() == 0);
    }
}

proof fn lemma_count_is_len(s: Seq<EpisodeView>)
    ensures
        total(s, |e: EpisodeView| 1nat) == s.len(),
    decreases s.len(),
{
    if s.len() > 0 {
        lemma_count_is_len(s.drop_last());
    }
}

proof fn lemma_shows_count(cat: Seq<char>, gs: Seq<(Seq<char>, Seq<(u16, Seq<EpisodeView>)>)>)
    ensures
        total(gs.map_values(|g: (Seq<char>, Seq<(u16, Seq<EpisodeView>)>)| show_view(cat, g)), |it: ItemView| videos(it))
            == group_eps(gs),
    decreases gs.len(),
{
    let f = |g: (Seq<char>, Seq<(u16, Seq<EpisodeView>)>)| show_view(cat, g);
    let w = |it: ItemView| videos(it);
    if gs.len() > 0 {
        let rest = gs.drop_first();
        lemma_shows_count(cat, rest);
        lemma_show_seasons(gs[0].1);
        assert(gs.map_values(f) =~= seq![f(gs[0])] + rest.map_values(f));
        lemma_total_front(rest.map_values(f), f(gs[0]), w);
        assert(gs =~= seq![gs[0]] + rest);
        lemma_group_eps_front(rest, gs[0]);
    } else {
        assert(gs.map_values(f).len() == 0);
    }
}

proof fn lemma_files_split(c: Config, fs: Seq<FileEntry>)
    ensures
        total(file_items(c, fs), |it: ItemView| videos(it)) + episode_entries(c, fs).len() == video_count(c, fs),
    decreases fs.len(),
{
    if fs.len() > 0 {
        lemma_files_split(c, fs.drop_last());
        let rest = file_items(c, fs.drop_last());
        let f = fs.last();
        if crate::config::video_spec(c, f.rel@) {
            match file_item(f.rel@, crate::parse::parse_stem_spec(f.stem@)) {
                Some(it) => {
                    assert(rest.push(it).drop_last() =~= rest);
                },
                None => {},
            }
        }
    }
}

/// A scan loses no video and makes none up: counting a show by its episodes and any other
/// item as one, a category's items stand for exactly as many videos as it has video files.
pub proof fn law_a_scan_counts_every_video_file(c: Config, cat: Seq<char>, fs: Seq<FileEntry>)
    ensures
        total(category_items(c, cat, fs), |it: ItemView| videos(it)) == video_count(c, fs),
{
    let w = |it: ItemView| videos(it);
    let gs = groups_of(episode_entries(c, fs));
    let shows = gs.map_values(|g: (Seq<char>, Seq<(u16, Seq<EpisodeView>)>)| show_view(cat, g));
    lemma_total_sort(file_items(c, fs) + shows, title_lt(), w);
    lemma_total_concat(file_items(c, fs), shows, w);
    lemma_shows_count(cat, gs);
    lemma_groups_count(episode_entries(c, fs));
    lemma_files_split(c, fs);
}


// ---------------------------------------------------------------------------------------------
// One show per name, seasons ascending

pub open spec fn seasons_ascend(ss: Seq<(u16, Seq<EpisodeView>)>) -> bool {
    forall|i: int, j: int| 0 <= i < j < ss.len() ==> (#[trigger] ss[i]).0 < (#[trigger] ss[j]).0
}

/// Show names strictly ascend (so none repeats), and so do the seasons of each show.
pub open spec fn groups_well_formed(gs: Seq<(Seq<char>, Seq<(u16, Seq<EpisodeView>)>)>) -> bool {
    &&& forall|i: int, j: int| 0 <= i < j < gs.len() ==> lex_lt((#[trigger] gs[i]).0, (#[trigger] gs[j]).0)
    &&& forall|i: int| 0 <= i < gs.len() ==> seasons_ascend(#[trigger] gs[i].1)
}

proof fn lemma_add_seasons_ascend(ss: Seq<(u16, Seq<EpisodeView>)>, e: EpisodeView)
    requires
        seasons_ascend(ss),
    ensures
        seasons_ascend(add_to_seasons(ss, e)),
        forall|k: int| 0 <= k < add_to_seasons(ss, e).len() ==> (#[trigger] add_to_seasons(ss, e)[k]).0 == e.season
            || exists|m: int| 0 <= m < ss.len() && ss[m].0 == add_to_seasons(ss, e)[k].0,
    decreases ss.len(),
{
    let r = add_to_seasons(ss, e);
    if ss.len() == 0 {
    } else if ss[0].0 == e.season {
        assert forall|k: int| 0 <= k < r.len() implies (#[trigger] r[k]).0 == e.season
            || exists|m: int| 0 <= m < ss.len() && ss[m].0 == r[k].0 by {
            assert(ss[k].0 == r[k].0);
        }
    } else if e.season < ss[0].0 {
        assert forall|i: int, j: int| 0 <= i < j < r.len() implies (#[trigger] r[i]).0 < (#[trigger] r[j]).0 by {
            if i > 0 {
                assert(r[i] == ss[i - 1] && r[j] == ss[j - 1]);
            } else {
                assert(r[j] == ss[j - 1]);
                if j > 1 {
                    assert(ss[0].0 < ss[j - 1].0);
                }
            }
        }
        assert forall|k: int| 0 <= k < r.len() implies (#[trigger] r[k]).0 == e.season
            || exists|m: int| 0 <= m < ss.len() && ss[m].0 == r[k].0 by {
            if k > 0 {
                assert(ss[k - 1].0 == r[k].0);
            }
        }
    } else {
        let rest = ss.drop_first();
        assert forall|i: int, j: int| 0 <= i < j < rest.len() implies (#[trigger] rest[i]).0 < (#[trigger] rest[j]).0 by {
            assert(rest[i] == ss[i + 1] && rest[j] == ss[j + 1]);
        }
        lemma_add_seasons_ascend(rest, e);
        let q = add_to_seasons(rest, e);
        assert forall|i: int, j: int| 0 <= i < j < r.len() implies (#[trigger] r[i]).0 < (#[trigger] r[j]).0 by {
            if i > 0 {
                assert(r[i] == q[i - 1] && r[j] == q[j - 1]);
            } else {
                assert(r[j] == q[j - 1]);
                if q[j - 1].0 != e.season {
                    let m = choose|m: int| 0 <= m < rest.len() && rest[m].0 == q[j - 1].0;
                    assert(rest[m] == ss[m + 1]);
                }
            }
        }
        assert forall|k: int| 0 <= k < r.len() implies (#[trigger] r[k]).0 == e.season
            || exists|m: int| 0 <= m < ss.len() && ss[m].0 == r[k].0 by {
            if k == 0 {
                assert(ss[0].0 == r[0].0);
            } else {
                assert(r[k] == q[k - 1]);
                if q[k - 1].0 != e.season {
                    let m = choose|m: int| 0 <= m < rest.len() && rest[m].0 == q[k - 1].0;
                    assert(ss[m + 1].0 == r[k].0);
                }
            }
        }
    }
}

proof fn lemma_add_groups_well_formed(gs: Seq<(Seq<char>, Seq<(u16, Seq<EpisodeView>)>)>, show: Seq<char>, e: EpisodeView)
    requires
        groups_well_formed(gs),
    ensures
        groups_well_formed(add_to_groups(gs, show, e)),
        forall|k: int| 0 <= k < add_to_groups(gs, show, e).len() ==> (#[trigger] add_to_groups(gs, show, e)[k]).0 == show
            || exists|m: int| 0 <= m < gs.len() && gs[m].0 == add_to_groups(gs, show, e)[k].0,
    decreases gs.len(),
{
    let r = add_to_groups(gs, show, e);
    let one: Seq<(u16, Seq<EpisodeView>)> = seq![(e.season, seq![e])];
    assert(seasons_ascend(one));
    if gs.len() == 0 {
    } else if gs[0].0 == show {
        lemma_add_seasons_ascend(gs[0].1, e);
        assert forall|i: int, j: int| 0 <= i < j < r.len() implies lex_lt((#[trigger] r[i]).0, (#[trigger] r[j]).0) by {
            assert(r[i].0 == gs[i].0 && r[j].0 == gs[j].0);
        }
        assert forall|i: int| 0 <= i < r.len() implies seasons_ascend(#[trigger] r[i].1) by {
            if i > 0 {
                assert(r[i] == gs[i]);
            }
        }
        assert forall|k: int| 0 <= k < r.len() implies (#[trigger] r[k]).0 == show
            || exists|m: int| 0 <= m < gs.len() && gs[m].0 == r[k].0 by {
            assert(gs[k].0 == r[k].0);
        }
    } else if lex_lt(show, gs[0].0) {
        assert forall|i: int, j: int| 0 <= i < j < r.len() implies lex_lt((#[trigger] r[i]).0, (#[trigger] r[j]).0) by {
            if i > 0 {
                assert(r[i] == gs[i - 1] && r[j] == gs[j - 1]);
            } else {
                assert(r[j] == gs[j - 1]);
                if j > 1 {
                    lemma_lex_trans(show, gs[0].0, gs[j - 1].0);
                }
            }
        }
        assert forall|i: int| 0 <= i < r.len() implies seasons_ascend(#[trigger] r[i].1) by {
            if i > 0 {
                assert(r[i] == gs[i - 1]);
            }
        }
        assert forall|k: int| 0 <= k < r.len() implies (#[trigger] r[k]).0 == show
            || exists|m: int| 0 <= m < gs.len() && gs[m].0 == r[k].0 by {
            if k > 0 {
                assert(gs[k - 1].0 == r[k].0);
            }
        }
    } else {
        let rest = gs.drop_first();
        lemma_lex_total(gs[0].0, show);
        assert forall|i: int, j: int| 0 <= i < j < rest.len() implies lex_lt((#[trigger] rest[i]).0, (#[trigger] rest[j]).0) by {
            assert(rest[i] == gs[i + 1] && rest[j] == gs[j + 1]);
        }
        assert forall|i: int| 0 <= i < rest.len() implies seasons_ascend(#[trigger] rest[i].1) by {
            assert(rest[i] == gs[i + 1]);
        }
        lemma_add_groups_well_formed(rest, show, e);
        let q = add_to_groups(rest, show, e);
        assert forall|i: int, j: int| 0 <= i < j < r.len() implies lex_lt((#[trigger] r[i]).0, (#[trigger] r[j]).0) by {
            if i > 0 {
                assert(r[i] == q[i - 1] && r[j] == q[j - 1]);
            } else {
                assert(r[j] == q[j - 1]);
                if q[j - 1].0 != show {
                    let m = choose|m: int| 0 <= m < rest.len() && rest[m].0 == q[j - 1].0;
                    assert(rest[m] == gs[m + 1]);
                }
            }
        }
        assert forall|i: int| 0 <= i < r.len() implies seasons_ascend(#[trigger] r[i].1) by {
            if i > 0 {
                assert(r[i] == q[i - 1]);
            }
        }
        assert forall|k: int| 0 <= k < r.len() implies (#[trigger] r[k]).0 == show
            || exists|m: int| 0 <= m < gs.len() && gs[m].0 == r[k].0 by {
            if k == 0 {
                assert(gs[0].0 == r[0].0);
            } else {
                assert(r[k] == q[k - 1]);
                if q[k - 1].0 != show {
                    let m = choose|m: int| 0 <= m < rest.len() && rest[m].0 == q[k - 1].0;
                    assert(gs[m + 1].0 == r[k].0);
                }
            }
        }
    }
}

/// Episodes group into one show per name, the shows by name and each show's seasons
/// ascending, none repeated.
pub proof fn law_episodes_group_into_one_show_per_name(entries: Seq<(Seq<char>, EpisodeView)>)
    ensures
        groups_well_formed(groups_of(entries)),
    decreases entries.len(),
{
    if entries.len() > 0 {
        law_episodes_group_into_one_show_per_name(entries.drop_last());
        lemma_add_groups_well_formed(groups_of(entries.drop_last()), entries.last().0, entries.last().1);
    }
}

} // verus!
