//! The browse model: what is on screen, and what a key does to it. No UI types here; the
//! binary maps keys to `Action`, renders a `View` and runs the `Effect`.
use crate::index::{
    all_items, counts_fit, episode_total, flat_episodes, item_total, Category, Episode, Index,
    Item, Kind, Season,
};
use crate::meta::Meta;
use crate::paths::{path_join, spec_path_join};
use crate::search::{fold, folded, matches_spec};
use vstd::hash_map::StringHashMap;
use vstd::prelude::*;
use vstd::view::View as _;

verus! {

/// The metadata the browser knows, by item id.
pub type MetaMap = StringHashMap<Meta>;

#[derive(Debug, Clone, Copy, PartialEq, Eq, Structural)]
pub enum Action {
    Down,
    Up,
    /// Lines to move, negative for up.
    Page(i32),
    Home,
    End,
    /// Next tab in the list, next season inside a show.
    NextTab,
    PrevTab,
    Type(char),
    /// Edits the filter in the list, leaves an open show.
    Backspace,
    /// Clears the filter in the list, leaves an open show.
    Clear,
    /// Plays a movie, flat item or episode; opens a show.
    Activate,
}

#[derive(Debug, Clone, PartialEq, Eq)]
pub enum Effect {
    /// The file to play, joined onto the library root.
    Play(String),
    /// The action changed nothing and the key belongs to whoever asked next.
    Unhandled,
}

/// What an effect says, for contracts.
pub enum EffectSpec {
    Play(Seq<char>),
    Unhandled,
}

pub open spec fn effect_spec(e: Option<Effect>) -> Option<EffectSpec> {
    match e {
        Some(Effect::Play(p)) => Some(EffectSpec::Play(p@)),
        Some(Effect::Unhandled) => Some(EffectSpec::Unhandled),
        None => None,
    }
}

// ---------------------------------------------------------------------------------------------
// Movement

/// Where a movement action lands in a list of `n` lines. None when the action is not a movement.
pub open spec fn moved_spec(selected: nat, n: nat, action: Action) -> Option<nat> {
    let last: nat = if n == 0 { 0 } else { (n - 1) as nat };
    match action {
        Action::Down => Some(if selected + 1 < last { selected + 1 } else { last }),
        Action::Up => Some(if selected == 0 { 0 } else { (selected - 1) as nat }),
        Action::Page(by) => if by < 0 {
            Some(if selected >= -by { (selected + by) as nat } else { 0 })
        } else {
            Some(if selected + by < last { (selected + by) as nat } else { last })
        },
        Action::Home => Some(0),
        Action::End => Some(last),
        _ => None,
    }
}

fn moved(selected: usize, n: usize, action: Action) -> (r: Option<usize>)
    requires
        selected < n || selected == 0,
    ensures
        match r {
            Some(to) => moved_spec(selected as nat, n as nat, action) == Some(to as nat),
            None => moved_spec(selected as nat, n as nat, action) is None,
        },
{
    let last = if n == 0 { 0 } else { n - 1 };
    match action {
        Action::Down => Some(if selected + 1 < last { selected + 1 } else { last }),
        Action::Up => Some(if selected == 0 { 0 } else { selected - 1 }),
        Action::Page(by) => {
            if by < 0 {
                let up: u64 = if by == i32::MIN { 2147483648 } else { (-by) as u64 };
                Some(if selected as u64 >= up { (selected as u64 - up) as usize } else { 0 })
            } else {
                let down = by as usize;
                Some(if selected < last && down < last - selected { selected + down } else { last })
            }
        },
        Action::Home => Some(0),
        Action::End => Some(last),
        _ => None,
    }
}

// ---------------------------------------------------------------------------------------------
// Tabs and the items under them

pub open spec fn has_all_tab(index: Index) -> bool {
    index.categories@.len() > 1
}

/// The All tab when there is more than one category, then one tab per category.
pub open spec fn tab_count(index: Index) -> nat {
    index.categories@.len() + if has_all_tab(index) { 1nat } else { 0nat }
}

/// `(category, item)` for every item of category `c`.
pub open spec fn cat_pairs(c: usize, n: nat) -> Seq<(usize, usize)> {
    Seq::new(n, |i: int| (c, i as usize))
}

/// `(category, item)` for every item of every category, in index order.
pub open spec fn all_pairs(cats: Seq<Category>) -> Seq<(usize, usize)>
    decreases cats.len(),
{
    if cats.len() == 0 {
        seq![]
    } else {
        all_pairs(cats.drop_last()) + cat_pairs((cats.len() - 1) as usize, cats.last().items@.len())
    }
}

/// `(category, item)` for everything under a tab, in index order.
pub open spec fn tab_items(index: Index, tab: nat) -> Seq<(usize, usize)> {
    let cats = index.categories@;
    if has_all_tab(index) && tab == 0 {
        all_pairs(cats)
    } else {
        let c = if has_all_tab(index) { tab - 1 } else { tab as int };
        if 0 <= c < cats.len() {
            cat_pairs(c as usize, cats[c].items@.len())
        } else {
            seq![]
        }
    }
}

pub open spec fn valid_pair(index: Index, p: (usize, usize)) -> bool {
    &&& p.0 < index.categories@.len()
    &&& p.1 < index.categories@[p.0 as int].items@.len()
}

pub open spec fn item_at(index: Index, p: (usize, usize)) -> Item {
    index.categories@[p.0 as int].items@[p.1 as int]
}

pub open spec fn meta_for(meta: Map<Seq<char>, Meta>, id: Seq<char>) -> Option<Meta> {
    if meta.contains_key(id) {
        Some(meta[id])
    } else {
        None
    }
}

/// Whether the line survives the filter, already folded.
pub open spec fn keeps(index: Index, meta: Map<Seq<char>, Meta>, q: Seq<char>, p: (usize, usize)) -> bool {
    q.len() == 0 || matches_spec(item_at(index, p), meta_for(meta, item_at(index, p).id@), q)
}

pub open spec fn filter_pairs(
    index: Index,
    meta: Map<Seq<char>, Meta>,
    q: Seq<char>,
    ps: Seq<(usize, usize)>,
) -> Seq<(usize, usize)>
    decreases ps.len(),
{
    if ps.len() == 0 {
        seq![]
    } else {
        let rest = filter_pairs(index, meta, q, ps.drop_last());
        if keeps(index, meta, q, ps.last()) {
            rest.push(ps.last())
        } else {
            rest
        }
    }
}

/// The lines of the list: everything under the tab that matches the filter, in index order;
/// with no filter, everything under the tab.
pub open spec fn visible_of(index: Index, meta: Map<Seq<char>, Meta>, tab: nat, filter: Seq<char>) -> Seq<(usize, usize)> {
    if filter.len() == 0 {
        tab_items(index, tab)
    } else {
        filter_pairs(index, meta, folded(filter), tab_items(index, tab))
    }
}

/// `a` is `b` with some elements left out, the rest in order.
pub open spec fn is_subseq<T>(a: Seq<T>, b: Seq<T>) -> bool
    decreases b.len(),
{
    if a.len() == 0 {
        true
    } else if b.len() == 0 {
        false
    } else if a.last() == b.last() {
        is_subseq(a.drop_last(), b.drop_last())
    } else {
        is_subseq(a, b.drop_last())
    }
}

proof fn lemma_subseq_push<T>(a: Seq<T>, b: Seq<T>, x: T)
    requires
        is_subseq(a, b),
    ensures
        is_subseq(a, b.push(x)),
    decreases b.len(), 1int,
{
    assert(b.push(x).drop_last() =~= b);
    if a.len() > 0 && a.last() == x {
        lemma_subseq_drop(a, b);
    }
}

proof fn lemma_subseq_drop<T>(a: Seq<T>, b: Seq<T>)
    requires
        is_subseq(a, b),
        a.len() > 0,
    ensures
        is_subseq(a.drop_last(), b),
    decreases b.len(), 0int,
{
    if a.last() == b.last() {
        lemma_subseq_push(a.drop_last(), b.drop_last(), b.last());
        assert(b.drop_last().push(b.last()) =~= b);
    } else {
        lemma_subseq_drop(a, b.drop_last());
        lemma_subseq_push(a.drop_last(), b.drop_last(), b.last());
        assert(b.drop_last().push(b.last()) =~= b);
    }
}

/// A subsequence is no longer than what it is taken from.
pub proof fn lemma_subseq_len<T>(a: Seq<T>, b: Seq<T>)
    requires
        is_subseq(a, b),
    ensures
        a.len() <= b.len(),
    decreases b.len(),
{
    if a.len() > 0 {
        if a.last() == b.last() {
            lemma_subseq_len(a.drop_last(), b.drop_last());
        } else {
            lemma_subseq_len(a, b.drop_last());
        }
    }
}

proof fn lemma_subseq_self<T>(a: Seq<T>)
    ensures
        is_subseq(a, a),
    decreases a.len(),
{
    if a.len() > 0 {
        lemma_subseq_self(a.drop_last());
    }
}

proof fn lemma_filter_pairs_subseq(index: Index, meta: Map<Seq<char>, Meta>, q: Seq<char>, ps: Seq<(usize, usize)>)
    ensures
        is_subseq(filter_pairs(index, meta, q, ps), ps),
    decreases ps.len(),
{
    if ps.len() > 0 {
        lemma_filter_pairs_subseq(index, meta, q, ps.drop_last());
        let rest = filter_pairs(index, meta, q, ps.drop_last());
        if keeps(index, meta, q, ps.last()) {
            assert(rest.push(ps.last()).drop_last() =~= rest);
        } else {
            lemma_subseq_push(rest, ps.drop_last(), ps.last());
            assert(ps.drop_last().push(ps.last()) =~= ps);
        }
    }
}

/// The lines shown are the tab's lines with some left out.
proof fn lemma_visible_subseq(index: Index, meta: Map<Seq<char>, Meta>, tab: nat, filter: Seq<char>)
    ensures
        is_subseq(visible_of(index, meta, tab, filter), tab_items(index, tab)),
{
    if filter.len() == 0 {
        lemma_subseq_self(tab_items(index, tab));
    } else {
        lemma_filter_pairs_subseq(index, meta, folded(filter), tab_items(index, tab));
    }
}

proof fn lemma_all_pairs_valid(index: Index, k: int)
    requires
        0 <= k <= index.categories@.len(),
    ensures
        forall|j: int| 0 <= j < all_pairs(index.categories@.take(k)).len()
            ==> valid_pair(index, #[trigger] all_pairs(index.categories@.take(k))[j]),
        all_pairs(index.categories@.take(k)).len() == all_items(index.categories@.take(k)).len(),
    decreases k,
{
    let cats = index.categories@;
    if k > 0 {
        lemma_all_pairs_valid(index, k - 1);
        assert(cats.take(k).drop_last() =~= cats.take(k - 1));
        let prev = all_pairs(cats.take(k - 1));
        let cp = cat_pairs((k - 1) as usize, cats[k - 1].items@.len());
        assert(all_pairs(cats.take(k)) =~= prev + cp);
        assert forall|j: int| 0 <= j < all_pairs(cats.take(k)).len()
            implies valid_pair(index, #[trigger] all_pairs(cats.take(k))[j]) by {
            if j >= prev.len() {
                assert(all_pairs(cats.take(k))[j] == cp[j - prev.len()]);
                assert(index.categories.len() == cats.len());
                assert(cats[k - 1].items.len() == cats[k - 1].items@.len());
                assert(cp[j - prev.len()] == ((k - 1) as usize, (j - prev.len()) as usize));
                assert(cats[k - 1] == index.categories@[k - 1]);
            } else {
                assert(all_pairs(cats.take(k))[j] == prev[j]);
            }
        }
    } else {
        assert(cats.take(0) =~= Seq::<Category>::empty());
    }
}

proof fn lemma_tab_items_valid(index: Index, tab: nat)
    ensures
        forall|j: int| 0 <= j < tab_items(index, tab).len() ==> valid_pair(index, #[trigger] tab_items(index, tab)[j]),
        tab_items(index, tab).len() <= item_total(index),
{
    let cats = index.categories@;
    lemma_all_pairs_valid(index, cats.len() as int);
    assert(cats.take(cats.len() as int) =~= cats);
    if !(has_all_tab(index) && tab == 0) {
        let c = if has_all_tab(index) { tab - 1 } else { tab as int };
        if 0 <= c < cats.len() {
            crate::index::lemma_all_len_mono(cats, c + 1);
            lemma_all_items_last(cats.take(c + 1));
            assert(cats.take(c + 1).last() == cats[c]);
            assert(cats.take(c + 1).drop_last() =~= cats.take(c));
            let ps = cat_pairs(c as usize, cats[c].items@.len());
            assert forall|j: int| 0 <= j < ps.len() implies valid_pair(index, #[trigger] ps[j]) by {
                assert(index.categories.len() == cats.len());
                assert(cats[c].items.len() == cats[c].items@.len());
                assert(ps[j] == (c as usize, j as usize));
            }
        }
    }
}

proof fn lemma_all_items_last(cats: Seq<Category>)
    requires
        cats.len() > 0,
    ensures
        all_items(cats).len() == all_items(cats.drop_last()).len() + cats.last().items@.len(),
{
}

proof fn lemma_filter_pairs_sub(index: Index, meta: Map<Seq<char>, Meta>, q: Seq<char>, ps: Seq<(usize, usize)>)
    ensures
        filter_pairs(index, meta, q, ps).len() <= ps.len(),
        forall|j: int| 0 <= j < filter_pairs(index, meta, q, ps).len()
            ==> ps.contains(#[trigger] filter_pairs(index, meta, q, ps)[j]),
    decreases ps.len(),
{
    if ps.len() > 0 {
        lemma_filter_pairs_sub(index, meta, q, ps.drop_last());
        let rest = filter_pairs(index, meta, q, ps.drop_last());
        assert forall|j: int| 0 <= j < filter_pairs(index, meta, q, ps).len()
            implies ps.contains(#[trigger] filter_pairs(index, meta, q, ps)[j]) by {
            if j < rest.len() {
                let x = rest[j];
                assert(ps.drop_last().contains(x));
                let k = choose|k: int| 0 <= k < ps.drop_last().len() && ps.drop_last()[k] == x;
                assert(ps[k] == x);
            } else {
                assert(ps[ps.len() - 1] == ps.last());
            }
        }
    }
}

proof fn lemma_visible_valid(index: Index, meta: Map<Seq<char>, Meta>, tab: nat, filter: Seq<char>)
    ensures
        forall|j: int| 0 <= j < visible_of(index, meta, tab, filter).len()
            ==> valid_pair(index, #[trigger] visible_of(index, meta, tab, filter)[j]),
        visible_of(index, meta, tab, filter).len() <= item_total(index),
{
    let ps = tab_items(index, tab);
    lemma_tab_items_valid(index, tab);
    lemma_filter_pairs_sub(index, meta, folded(filter), ps);
    assert(filter.len() == 0 ==> ps.contains(ps[0]) || ps.len() == 0);
    assert forall|j: int| 0 <= j < visible_of(index, meta, tab, filter).len()
        implies valid_pair(index, #[trigger] visible_of(index, meta, tab, filter)[j]) by {
        let x = visible_of(index, meta, tab, filter)[j];
        if filter.len() == 0 {
            assert(ps[j] == x);
        }
        assert(ps.contains(x));
        let k = choose|k: int| 0 <= k < ps.len() && ps[k] == x;
        assert(valid_pair(index, ps[k]));
    }
}

/// The first item of the index with this id.
pub open spec fn find_item(items: Seq<Item>, id: Seq<char>) -> Option<Item>
    decreases items.len(),
{
    if items.len() == 0 {
        None
    } else if items[0].id@ == id {
        Some(items[0])
    } else {
        find_item(items.drop_first(), id)
    }
}

pub open spec fn find_show(index: Index, id: Seq<char>) -> Option<Item> {
    find_item(all_items(index.categories@), id)
}


// ---------------------------------------------------------------------------------------------
// Inside a show

/// First position of `x` in `s`.
pub open spec fn first_pos(s: Seq<u16>, x: u16) -> Option<nat>
    decreases s.len(),
{
    if s.len() == 0 {
        None
    } else if s[0] == x {
        Some(0)
    } else {
        match first_pos(s.drop_first(), x) {
            Some(k) => Some(k + 1),
            None => None,
        }
    }
}

proof fn lemma_first_pos(s: Seq<u16>, x: u16, i: int)
    requires
        0 <= i <= s.len(),
        forall|j: int| 0 <= j < i ==> s[j] != x,
    ensures
        first_pos(s, x) == match first_pos(s.skip(i), x) {
            Some(k) => Some(k + i as nat),
            None => None,
        },
    decreases i,
{
    if i == 0 {
        assert(s.skip(0) =~= s);
    } else {
        lemma_first_pos(s.drop_first(), x, i - 1);
        assert(s.drop_first().skip(i - 1) =~= s.skip(i));
    }
}

proof fn lemma_first_pos_bound(s: Seq<u16>, x: u16)
    ensures
        first_pos(s, x) matches Some(k) ==> k < s.len() && s[k as int] == x,
    decreases s.len(),
{
    if s.len() > 0 && s[0] != x {
        lemma_first_pos_bound(s.drop_first(), x);
    }
}

fn position(v: &Vec<u16>, x: u16) -> (r: Option<usize>)
    ensures
        match r {
            Some(k) => first_pos(v@, x) == Some(k as nat),
            None => first_pos(v@, x) is None,
        },
{
    let mut i: usize = 0;
    while i < v.len()
        invariant
            i <= v@.len(),
            forall|j: int| 0 <= j < i ==> v@[j] != x,
        decreases v@.len() - i,
    {
        if v[i] == x {
            proof {
                lemma_first_pos(v@, x, i as int);
            }
            return Some(i);
        }
        i = i + 1;
    }
    proof {
        lemma_first_pos(v@, x, i as int);
    }
    None
}

pub open spec fn season_numbers(item: Item) -> Seq<u16> {
    item.seasons@.map_values(|s: Season| s.number)
}

pub open spec fn flat_seasons(item: Item) -> Seq<u16> {
    flat_episodes(item.seasons@).map_values(|e: Episode| e.season)
}

fn season_numbers_of(item: &Item) -> (v: Vec<u16>)
    ensures
        v@ == season_numbers(*item),
{
    let mut v: Vec<u16> = Vec::new();
    let mut j: usize = 0;
    while j < item.seasons.len()
        invariant
            j <= item.seasons@.len(),
            v@ == item.seasons@.take(j as int).map_values(|s: Season| s.number),
        decreases item.seasons@.len() - j,
    {
        v.push(item.seasons[j].number);
        j = j + 1;
        assert(v@ =~= item.seasons@.take(j as int).map_values(|s: Season| s.number));
    }
    assert(item.seasons@.take(j as int) =~= item.seasons@);
    v
}

fn flat_seasons_of(item: &Item) -> (v: Vec<u16>)
    ensures
        v@ == flat_seasons(*item),
{
    let mut v: Vec<u16> = Vec::new();
    let mut j: usize = 0;
    while j < item.seasons.len()
        invariant
            j <= item.seasons@.len(),
            v@ == flat_episodes(item.seasons@.take(j as int)).map_values(|e: Episode| e.season),
        decreases item.seasons@.len() - j,
    {
        let eps = &item.seasons[j].episodes;
        let ghost start = v@;
        let mut e: usize = 0;
        while e < eps.len()
            invariant
                e <= eps@.len(),
                v@ == start + eps@.take(e as int).map_values(|x: Episode| x.season),
            decreases eps@.len() - e,
        {
            v.push(eps[e].season);
            e = e + 1;
            assert(v@ =~= start + eps@.take(e as int).map_values(|x: Episode| x.season));
        }
        proof {
            assert(eps@.take(e as int) =~= eps@);
            assert(item.seasons@.take(j + 1).drop_last() =~= item.seasons@.take(j as int));
            assert(flat_episodes(item.seasons@.take(j + 1)) == flat_episodes(item.seasons@.take(j as int)) + eps@);
        }
        j = j + 1;
        assert(v@ =~= flat_episodes(item.seasons@.take(j as int)).map_values(|e: Episode| e.season));
    }
    assert(item.seasons@.take(j as int) =~= item.seasons@);
    v
}

/// The `k`th episode of a show, seasons flattened in order.
fn episode_nth(item: &Item, k: usize) -> (e: &Episode)
    requires
        k < flat_episodes(item.seasons@).len(),
    ensures
        *e == flat_episodes(item.seasons@)[k as int],
{
    let ghost s = item.seasons@;
    let mut j: usize = 0;
    let mut off: usize = 0;
    proof {
        crate::index::lemma_flat_split(s, 0);
        assert(s.take(0) =~= Seq::<Season>::empty());
    }
    while j < item.seasons.len()
        invariant
            j <= s.len(),
            s == item.seasons@,
            off == flat_episodes(s.take(j as int)).len(),
            off <= k,
            k < flat_episodes(s).len(),
            flat_episodes(s) == flat_episodes(s.take(j as int)) + flat_episodes(s.skip(j as int)),
        decreases s.len() - j,
    {
        let n = item.seasons[j].episodes.len();
        proof {
            crate::index::lemma_flat_front(s.skip(j as int));
            assert(s.skip(j as int).drop_first() =~= s.skip(j + 1));
            assert(s.take(j + 1).drop_last() =~= s.take(j as int));
            crate::index::lemma_flat_split(s, j + 1);
        }
        if k - off < n {
            let e = &item.seasons[j].episodes[k - off];
            assert(flat_episodes(s)[k as int] == s[j as int].episodes@[k - off]);
            return e;
        }
        off = off + n;
        j = j + 1;
    }
    proof {
        assert(s.skip(j as int) =~= Seq::<Season>::empty());
        assert(s.take(j as int) =~= s);
    }
    &item.seasons[0].episodes[0]
}

proof fn lemma_find_item_append(a: Seq<Item>, b: Seq<Item>, id: Seq<char>)
    ensures
        find_item(a + b, id) == match find_item(a, id) {
            Some(x) => Some(x),
            None => find_item(b, id),
        },
    decreases a.len(),
{
    if a.len() == 0 {
        assert(a + b =~= b);
    } else {
        assert((a + b)[0] == a[0]);
        assert((a + b).drop_first() =~= a.drop_first() + b);
        lemma_find_item_append(a.drop_first(), b, id);
    }
}

proof fn lemma_find_item_in(items: Seq<Item>, id: Seq<char>)
    ensures
        find_item(items, id) matches Some(x) ==> exists|k: int| 0 <= k < items.len() && items[k] == x,
    decreases items.len(),
{
    if items.len() > 0 && items[0].id@ != id {
        lemma_find_item_in(items.drop_first(), id);
        if let Some(x) = find_item(items, id) {
            let k = choose|k: int| 0 <= k < items.drop_first().len() && items.drop_first()[k] == x;
            assert(items[k + 1] == x);
        }
    } else if items.len() > 0 {
        assert(items[0] == items[0]);
    }
}

/// The first item of the index with this id.
fn find_show_exec<'a>(index: &'a Index, id: &str) -> (r: Option<&'a Item>)
    ensures
        match r {
            Some(it) => find_show(*index, id@) == Some(*it),
            None => find_show(*index, id@) is None,
        },
{
    let ghost cats = index.categories@;
    let mut c: usize = 0;
    assert(cats.take(0) =~= Seq::<Category>::empty());
    while c < index.categories.len()
        invariant
            c <= cats.len(),
            cats == index.categories@,
            find_item(all_items(cats.take(c as int)), id@) is None,
        decreases cats.len() - c,
    {
        let items = &index.categories[c].items;
        let mut i: usize = 0;
        proof {
            assert(items@.take(0) =~= Seq::<Item>::empty());
            assert(all_items(cats.take(c as int)) + items@.take(0) =~= all_items(cats.take(c as int)));
        }
        while i < items.len()
            invariant
                i <= items@.len(),
                c < cats.len(),
                cats == index.categories@,
                items@ == cats[c as int].items@,
                find_item(all_items(cats.take(c as int)) + items@.take(i as int), id@) is None,
            decreases items@.len() - i,
        {
            let ghost pre = all_items(cats.take(c as int)) + items@.take(i as int);
            proof {
                assert(pre + seq![items@[i as int]] =~= all_items(cats.take(c as int)) + items@.take(i + 1));
                lemma_find_item_append(pre, seq![items@[i as int]], id@);
                assert(seq![items@[i as int]].drop_first() =~= Seq::<Item>::empty());
            }
            if crate::text::str_eq(items[i].id.as_str(), id) {
                proof {
                    assert(cats.take(c + 1).drop_last() =~= cats.take(c as int));
                    assert(all_items(cats.take(c + 1)) =~= all_items(cats.take(c as int)) + items@);
                    assert(items@ =~= items@.take(i + 1) + items@.skip(i + 1));
                    assert(all_items(cats.take(c + 1)) =~= (all_items(cats.take(c as int)) + items@.take(i + 1)) + items@.skip(i + 1));
                    lemma_find_item_append(all_items(cats.take(c as int)) + items@.take(i + 1), items@.skip(i + 1), id@);
                    assert(cats =~= cats.take(c + 1) + cats.skip(c + 1));
                    lemma_all_items_append(cats.take(c + 1), cats.skip(c + 1));
                    lemma_find_item_append(all_items(cats.take(c + 1)), all_items(cats.skip(c + 1)), id@);
                }
                return Some(&items[i]);
            }
            proof {
                let one = seq![items@[i as int]];
                assert(find_item(one.drop_first(), id@) is None);
                assert(find_item(one, id@) is None);
            }
            i = i + 1;
        }
        proof {
            assert(items@.take(i as int) =~= items@);
            assert(cats.take(c + 1).drop_last() =~= cats.take(c as int));
        }
        c = c + 1;
    }
    assert(cats.take(c as int) =~= cats);
    None
}

proof fn lemma_all_items_append(a: Seq<Category>, b: Seq<Category>)
    ensures
        all_items(a + b) == all_items(a) + all_items(b),
    decreases b.len(),
{
    if b.len() == 0 {
        assert(a + b =~= a);
        assert(all_items(a) + Seq::<Item>::empty() =~= all_items(a));
    } else {
        lemma_all_items_append(a, b.drop_last());
        assert((a + b).drop_last() =~= a + b.drop_last());
        assert(all_items(a + b) =~= all_items(a) + all_items(b));
    }
}


// ---------------------------------------------------------------------------------------------
// The browser

/// What the browser holds; `Browser` wraps it and keeps its invariant at all times.
struct Core {
    root: String,
    index: Index,
    meta: MetaMap,
    /// 0 is the All tab when there is more than one category; the rest are categories in index order.
    active_tab: usize,
    selected: usize,
    filter: String,
    /// `(category, item)` indices into the index, after filtering.
    visible: Vec<(usize, usize)>,
    /// The show drilled into, if any. The list selection and filter wait underneath it.
    open: Option<Open>,
}

struct Open {
    id: String,
    /// Index into the show's episodes, seasons flattened in order.
    selected: usize,
}

/// What a key can change, for contracts: the tab, the list line, the filter, the lines
/// shown, and the open show with its selected episode.
pub struct BrowserState {
    pub tab: nat,
    pub selected: nat,
    pub filter: Seq<char>,
    pub visible: Seq<(usize, usize)>,
    pub open: Option<(Seq<char>, nat)>,
}

/// The tab, the selection, the filter and what is shown are what they were, apart from the
/// lines shown being recomputed for the (possibly new) tab and filter.
pub open spec fn refiltered(index: Index, meta: Map<Seq<char>, Meta>, st: BrowserState) -> BrowserState {
    let vis = visible_of(index, meta, st.tab, st.filter);
    BrowserState {
        visible: vis,
        selected: if st.selected >= vis.len() {
            if vis.len() == 0 { 0 } else { (vis.len() - 1) as nat }
        } else {
            st.selected
        },
        ..st
    }
}

/// The list line an action in the list lands on.
pub open spec fn apply_list(
    index: Index,
    meta: Map<Seq<char>, Meta>,
    root: Seq<char>,
    st: BrowserState,
    action: Action,
) -> (BrowserState, Option<EffectSpec>) {
    let n = st.visible.len();
    match moved_spec(st.selected, n, action) {
        Some(to) => (BrowserState { selected: to, ..st }, None),
        None => match action {
            Action::NextTab | Action::PrevTab => {
                let count = tab_count(index);
                if count > 0 {
                    let t = if action == Action::NextTab {
                        (st.tab + 1) % count
                    } else {
                        ((st.tab + count - 1) as nat) % count
                    };
                    (refiltered(index, meta, BrowserState { tab: t, selected: 0, ..st }), None)
                } else {
                    (st, None)
                }
            },
            Action::Type(c) => (refiltered(index, meta, BrowserState { filter: st.filter.push(c), ..st }), None),
            Action::Backspace => (
                refiltered(
                    index,
                    meta,
                    BrowserState {
                        filter: if st.filter.len() == 0 { st.filter } else { st.filter.drop_last() },
                        ..st
                    },
                ),
                None,
            ),
            Action::Clear => if st.filter.len() == 0 {
                (st, Some(EffectSpec::Unhandled))
            } else {
                (refiltered(index, meta, BrowserState { filter: seq![], ..st }), None)
            },
            Action::Activate => if st.selected < n {
                let it = item_at(index, st.visible[st.selected as int]);
                if it.kind == Kind::Show {
                    (BrowserState { open: Some((it.id@, 0nat)), ..st }, None)
                } else {
                    match it.path {
                        Some(p) => (st, Some(EffectSpec::Play(spec_path_join(root, p@)))),
                        None => (st, None),
                    }
                }
            } else {
                (st, None)
            },
            _ => (st, None),
        },
    }
}

/// The episode a season jump lands on: the first episode of the next (or previous) season
/// in the show's season order, counting from the season of the selected episode.
pub open spec fn season_jump(show: Item, sel: nat, forward: bool) -> Option<nat> {
    let seasons = flat_seasons(show);
    let nums = season_numbers(show);
    if sel < seasons.len() {
        match first_pos(nums, seasons[sel as int]) {
            Some(at) => {
                let next: Option<nat> = if forward {
                    if at + 1 < nums.len() { Some(at + 1) } else { None }
                } else {
                    if at > 0 { Some((at - 1) as nat) } else { None }
                };
                match next {
                    Some(i) => first_pos(seasons, nums[i as int]),
                    None => None,
                }
            },
            None => None,
        }
    } else {
        None
    }
}

/// What an action does inside an open show.
pub open spec fn apply_show(
    index: Index,
    root: Seq<char>,
    st: BrowserState,
    id: Seq<char>,
    sel: nat,
    action: Action,
) -> (BrowserState, Option<EffectSpec>) {
    match find_show(index, id) {
        None => (st, None),
        Some(show) => {
            let eps = flat_episodes(show.seasons@);
            let to: Option<nat> = match action {
                Action::NextTab => season_jump(show, sel, true),
                Action::PrevTab => season_jump(show, sel, false),
                Action::Type(_) | Action::Backspace | Action::Clear | Action::Activate => None,
                _ => moved_spec(sel, eps.len(), action),
            };
            match action {
                Action::Backspace | Action::Clear => (BrowserState { open: None, ..st }, None),
                Action::Activate => if sel < eps.len() {
                    (st, Some(EffectSpec::Play(spec_path_join(root, eps[sel as int].path@))))
                } else {
                    (st, None)
                },
                _ => match to {
                    Some(t) => (BrowserState { open: Some((id, t)), ..st }, None),
                    None => (st, None),
                },
            }
        },
    }
}

/// What an action does: inside an open show, or else in the list.
pub open spec fn apply_spec(
    index: Index,
    meta: Map<Seq<char>, Meta>,
    root: Seq<char>,
    st: BrowserState,
    action: Action,
) -> (BrowserState, Option<EffectSpec>) {
    match st.open {
        Some((id, sel)) => apply_show(index, root, st, id, sel, action),
        None => apply_list(index, meta, root, st, action),
    }
}

impl Core {
    /// The browser's state.
    spec fn state(&self) -> BrowserState {
        BrowserState {
            tab: self.active_tab as nat,
            selected: self.selected as nat,
            filter: self.filter@,
            visible: self.visible@,
            open: match self.open {
                Some(o) => Some((o.id@, o.selected as nat)),
                None => None,
            },
        }
    }

    spec fn index_spec(&self) -> Index {
        self.index
    }

    spec fn meta_spec(&self) -> Map<Seq<char>, Meta> {
        self.meta@
    }

    spec fn root_spec(&self) -> Seq<char> {
        self.root@
    }

    /// The browser's invariant: counts fit, the tab exists, every line points at an item,
    /// the lines are the tab's lines with some left out, the selection is on a line, and an open show is in the index with its selection on
    /// one of its episodes.
    spec fn wf(&self) -> bool {
        state_ok(self.index, self.state())
    }

    fn items(&self) -> (r: Vec<(usize, usize)>)
        requires
            counts_fit(self.index),
        ensures
            r@ == tab_items(self.index, self.active_tab as nat),
    {
        let ghost cats = self.index.categories@;
        let all = self.index.categories.len() > 1;
        let mut r: Vec<(usize, usize)> = Vec::new();
        if all && self.active_tab == 0 {
            let mut c: usize = 0;
            assert(cats.take(0) =~= Seq::<Category>::empty());
            while c < self.index.categories.len()
                invariant
                    c <= cats.len(),
                    cats == self.index.categories@,
                    r@ == all_pairs(cats.take(c as int)),
                decreases cats.len() - c,
            {
                let n = self.index.categories[c].items.len();
                let ghost start = r@;
                let mut i: usize = 0;
                while i < n
                    invariant
                        i <= n,
                        c < cats.len(),
                        r@ == start + cat_pairs(c, i as nat),
                    decreases n - i,
                {
                    r.push((c, i));
                    i = i + 1;
                    assert(r@ =~= start + cat_pairs(c, i as nat));
                }
                proof {
                    assert(cats.take(c + 1).drop_last() =~= cats.take(c as int));
                    assert(cats.take(c + 1).last() == cats[c as int]);
                }
                c = c + 1;
            }
            assert(cats.take(c as int) =~= cats);
        } else {
            let c = if all { self.active_tab - 1 } else { self.active_tab };
            if c < self.index.categories.len() {
                let n = self.index.categories[c].items.len();
                let mut i: usize = 0;
                while i < n
                    invariant
                        i <= n,
                        r@ == cat_pairs(c, i as nat),
                    decreases n - i,
                {
                    r.push((c, i));
                    i = i + 1;
                    assert(r@ =~= cat_pairs(c, i as nat));
                }
            }
        }
        r
    }

    fn refilter(&mut self)
        requires
            counts_fit(old(self).index),
        ensures
            final(self).state() == refiltered(old(self).index, old(self).meta@, old(self).state()),
            final(self).index == old(self).index,
            final(self).meta@ == old(self).meta@,
            final(self).root == old(self).root,
            forall|j: int| 0 <= j < final(self).visible@.len() ==> valid_pair(final(self).index, #[trigger] final(self).visible@[j]),
            is_subseq(final(self).visible@, tab_items(final(self).index, final(self).active_tab as nat)),
    {
        let items = self.items();
        if self.filter.as_str().is_empty() {
            self.visible = items;
            proof {
                lemma_visible_valid(self.index, self.meta@, self.active_tab as nat, self.filter@);
                lemma_visible_subseq(self.index, self.meta@, self.active_tab as nat, self.filter@);
            }
            if self.selected >= self.visible.len() {
                self.selected = if self.visible.len() == 0 { 0 } else { self.visible.len() - 1 };
            }
            return;
        }
        let q = fold(self.filter.as_str());
        let ghost ps = tab_items(self.index, self.active_tab as nat);
        proof {
            lemma_tab_items_valid(self.index, self.active_tab as nat);
        }
        let mut vis: Vec<(usize, usize)> = Vec::new();
        let mut k: usize = 0;
        while k < items.len()
            invariant
                k <= items@.len(),
                items@ == ps,
                q@ == folded(self.filter@),
                forall|j: int| 0 <= j < ps.len() ==> valid_pair(self.index, #[trigger] ps[j]),
                vis@ == filter_pairs(self.index, self.meta@, q@, ps.take(k as int)),
            decreases items@.len() - k,
        {
            let (c, i) = items[k];
            assert(valid_pair(self.index, ps[k as int]));
            let it = &self.index.categories[c].items[i];
            let m = self.meta.get(it.id.as_str());
            proof {
                assert(ps.take(k + 1).drop_last() =~= ps.take(k as int));
                assert(ps.take(k + 1).last() == ps[k as int]);
                assert(*it == item_at(self.index, ps[k as int]));
            }
            if q.as_str().is_empty() || crate::search::matches(it, m, q.as_str()) {
                vis.push((c, i));
            }
            k = k + 1;
        }
        assert(ps.take(k as int) =~= ps);
        self.visible = vis;
        proof {
            lemma_visible_valid(self.index, self.meta@, self.active_tab as nat, self.filter@);
            lemma_visible_subseq(self.index, self.meta@, self.active_tab as nat, self.filter@);
        }
        if self.selected >= self.visible.len() {
            self.selected = if self.visible.len() == 0 { 0 } else { self.visible.len() - 1 };
        }
    }

    fn new(index: Index, meta: MetaMap, root: String) -> (b: Core)
        requires
            counts_fit(index),
        ensures
            b.wf(),
            b.index_spec() == index,
            b.meta_spec() == meta@,
            b.root_spec() == root@,
            b.state() == refiltered(
                index,
                meta@,
                BrowserState { tab: 0, selected: 0, filter: seq![], visible: seq![], open: None },
            ),
    {
        let mut b = Core {
            root,
            index,
            meta,
            active_tab: 0,
            selected: 0,
            filter: String::new(),
            visible: Vec::new(),
            open: None,
        };
        b.refilter();
        b
    }
}

/// The browser's invariant over a state.
pub open spec fn state_ok(index: Index, st: BrowserState) -> bool {
    &&& counts_fit(index)
    &&& st.tab < usize::MAX
    &&& forall|j: int| 0 <= j < st.visible.len() ==> valid_pair(index, #[trigger] st.visible[j])
    &&& is_subseq(st.visible, tab_items(index, st.tab))
    &&& (st.selected < st.visible.len() || (st.visible.len() == 0 && st.selected == 0))
    &&& match st.open {
        Some((id, sel)) => match find_show(index, id) {
            Some(show) => sel < episode_total(show) || sel == 0,
            None => false,
        },
        None => true,
    }
}


impl Core {
    fn tab_count_exec(&self) -> (r: usize)
        requires
            counts_fit(self.index),
        ensures
            r == tab_count(self.index),
    {
        self.index.categories.len() + if self.index.categories.len() > 1 { 1 } else { 0 }
    }

    /// One action (see `Browser::apply`).
    fn apply(&mut self, action: Action) -> (r: Option<Effect>)
        requires
            old(self).wf(),
        ensures
            final(self).wf(),
            final(self).index_spec() == old(self).index_spec(),
            final(self).meta_spec() == old(self).meta_spec(),
            final(self).root_spec() == old(self).root_spec(),
            (final(self).state(), effect_spec(r)) == apply_spec(
                old(self).index_spec(),
                old(self).meta_spec(),
                old(self).root_spec(),
                old(self).state(),
                action,
            ),
    {
        if self.open.is_some() {
            return self.apply_in_show(action);
        }
        let n = self.visible.len();
        if let Some(to) = moved(self.selected, n, action) {
            self.selected = to;
            return None;
        }
        match action {
            Action::NextTab | Action::PrevTab => {
                let count = self.tab_count_exec();
                if count > 0 {
                    let t = self.active_tab;
                    self.active_tab = if action == Action::NextTab {
                        (t + 1) % count
                    } else {
                        let r = t % count;
                        proof {
                            lemma_prev_tab(t as int, count as int);
                        }
                        if r == 0 {
                            count - 1
                        } else {
                            r - 1
                        }
                    };
                    self.selected = 0;
                    self.refilter();
                }
            },
            Action::Type(c) => {
                crate::text::push_char(&mut self.filter, c);
                self.refilter();
            },
            Action::Backspace => {
                crate::text::pop_char(&mut self.filter);
                self.refilter();
            },
            Action::Clear => {
                if self.filter.as_str().is_empty() {
                    return Some(Effect::Unhandled);
                }
                self.filter = String::new();
                self.refilter();
            },
            Action::Activate => {
                if self.selected < self.visible.len() {
                    let (c, i) = self.visible[self.selected];
                    let it = &self.index.categories[c].items[i];
                    if it.kind == Kind::Show {
                        let id = it.id.clone();
                        proof {
                            assert(valid_pair(self.index, self.visible@[self.selected as int]));
                            lemma_item_at_found(self.index, self.visible@[self.selected as int]);
                        }
                        self.open = Some(Open { id, selected: 0 });
                    } else if let Some(p) = &it.path {
                        return Some(Effect::Play(path_join(self.root.as_str(), p.as_str())));
                    }
                }
            },
            _ => {},
        }
        None
    }

    fn apply_in_show(&mut self, action: Action) -> (r: Option<Effect>)
        requires
            old(self).wf(),
            old(self).open is Some,
        ensures
            final(self).wf(),
            final(self).index_spec() == old(self).index_spec(),
            final(self).meta_spec() == old(self).meta_spec(),
            final(self).root_spec() == old(self).root_spec(),
            (final(self).state(), effect_spec(r)) == apply_spec(
                old(self).index_spec(),
                old(self).meta_spec(),
                old(self).root_spec(),
                old(self).state(),
                action,
            ),
    {
        let (to, id) = {
            let open = match &self.open {
                Some(o) => o,
                None => {
                    return None;
                },
            };
            let sel = open.selected;
            let show = match find_show_exec(&self.index, open.id.as_str()) {
                Some(s) => s,
                None => {
                    return None;
                },
            };
            let seasons = flat_seasons_of(show);
            let n = seasons.len();
            let to: Option<usize> = match action {
                Action::NextTab | Action::PrevTab => {
                    if sel < n {
                        let season = seasons[sel];
                        let nums = season_numbers_of(show);
                        match position(&nums, season) {
                            Some(at) => {
                                proof {
                                    lemma_first_pos_bound(nums@, season);
                                }
                                assert(at < nums@.len());
                                let next: Option<usize> = if action == Action::NextTab {
                                    if nums.len() - at > 1 { Some(at + 1) } else { None }
                                } else {
                                    if at > 0 { Some(at - 1) } else { None }
                                };
                                match next {
                                    Some(i) => {
                                        proof {
                                            lemma_first_pos_bound(seasons@, nums@[i as int]);
                                        }
                                        position(&seasons, nums[i])
                                    },
                                    None => None,
                                }
                            },
                            None => None,
                        }
                    } else {
                        None
                    }
                },
                Action::Backspace | Action::Clear => {
                    self.open = None;
                    return None;
                },
                Action::Activate => {
                    if sel < n {
                        let e = episode_nth(show, sel);
                        return Some(Effect::Play(path_join(self.root.as_str(), e.path.as_str())));
                    }
                    return None;
                },
                Action::Type(_) => None,
                _ => moved(sel, n, action),
            };
            (to, open.id.clone())
        };
        if let Some(t) = to {
            self.open = Some(Open { id, selected: t });
        }
        None
    }
}

proof fn lemma_item_at_found(index: Index, p: (usize, usize))
    requires
        valid_pair(index, p),
    ensures
        find_show(index, item_at(index, p).id@) is Some,
{
    let cats = index.categories@;
    let c = p.0 as int;
    let i = p.1 as int;
    let it = item_at(index, p);
    assert(cats =~= cats.take(c) + cats.skip(c));
    lemma_all_items_append(cats.take(c), cats.skip(c));
    crate::index::lemma_flat_split(Seq::<Season>::empty(), 0);
    lemma_all_items_front(cats.skip(c));
    assert(cats.skip(c)[0] == cats[c]);
    let items = cats[c].items@;
    assert(items =~= items.take(i) + items.skip(i));
    lemma_find_item_append(items.take(i), items.skip(i), it.id@);
    assert(items.skip(i)[0] == it);
    lemma_find_item_append(all_items(cats.take(c)), all_items(cats.skip(c)), it.id@);
    lemma_find_item_append(items, all_items(cats.skip(c).drop_first()), it.id@);
}

proof fn lemma_all_items_front(cats: Seq<Category>)
    requires
        cats.len() > 0,
    ensures
        all_items(cats) == cats[0].items@ + all_items(cats.drop_first()),
{
    assert(cats =~= seq![cats[0]] + cats.drop_first());
    lemma_all_items_append(seq![cats[0]], cats.drop_first());
    assert(seq![cats[0]].drop_last() =~= Seq::<Category>::empty());
    assert(all_items(Seq::<Category>::empty()) =~= Seq::<Item>::empty());
    assert(seq![cats[0]].last() == cats[0]);
    assert(all_items(seq![cats[0]]) =~= cats[0].items@);
}


proof fn lemma_prev_tab(t: int, count: int)
    requires
        t >= 0,
        count > 0,
    ensures
        (t + count - 1) % count == if t % count == 0 { count - 1 } else { t % count - 1 },
{
    vstd::arithmetic::div_mod::lemma_fundamental_div_mod(t, count);
    let q = t / count;
    let r = t % count;
    assert(0 <= r < count) by {
        vstd::arithmetic::div_mod::lemma_mod_bound(t, count);
    }
    assert(t + count - 1 == count * q + (r + count - 1));
    if r == 0 {
        vstd::arithmetic::div_mod::lemma_mod_multiples_vanish(q, count - 1, count);
        vstd::arithmetic::div_mod::lemma_small_mod((count - 1) as nat, count as nat);
    } else {
        assert(t + count - 1 == count * (q + 1) + (r - 1)) by (nonlinear_arith)
            requires
                t + count - 1 == count * q + (r + count - 1),
        ;
        vstd::arithmetic::div_mod::lemma_mod_multiples_vanish(q + 1, r - 1, count);
        vstd::arithmetic::div_mod::lemma_small_mod((r - 1) as nat, count as nat);
    }
}


// ---------------------------------------------------------------------------------------------
// What is on screen

#[derive(Debug, Clone, PartialEq, Eq)]
pub struct Tab {
    pub id: String,
    pub label: String,
    pub count: usize,
}

/// One line of the list: an item, or inside a show a season heading or an episode.
#[derive(Debug, Clone, PartialEq, Eq)]
pub struct Row {
    pub id: String,
    /// Position in the list, from 1. 0 for a heading.
    pub number: usize,
    pub title: String,
    pub year: Option<u16>,
    pub is_show: bool,
    pub episodes: usize,
    /// `S02 · E03` for an episode line.
    pub code: String,
    /// A season heading: not selectable, `title` is the heading and `episodes` its count.
    pub heading: bool,
}

/// The right-hand card, already worded. `has_poster` means one was stored in the cache.
#[derive(Debug, Clone, PartialEq, Eq)]
pub struct Card {
    pub item_id: String,
    pub label: String,
    pub title: String,
    pub original: String,
    pub facts: String,
    pub genres: String,
    pub note: String,
    pub note_italic: bool,
    pub has_poster: bool,
    /// `S02 · E03 · The One Where…` for the selected episode of an open show.
    pub episode: String,
}

#[derive(Debug, Clone, PartialEq, Eq)]
pub struct View {
    pub tabs: Vec<Tab>,
    pub active_tab: usize,
    pub rows: Vec<Row>,
    /// Index into `rows`.
    pub selected: usize,
    pub filter: String,
    /// Rows shown out of the items in the active category; episodes when a show is open.
    pub shown: usize,
    pub total: usize,
    /// Title of the open show, empty in the list.
    pub crumb: String,
    pub card: Card,
}

pub struct TabSpec {
    pub id: Seq<char>,
    pub label: Seq<char>,
    pub count: nat,
}

pub struct RowSpec {
    pub id: Seq<char>,
    pub number: nat,
    pub title: Seq<char>,
    pub year: Option<u16>,
    pub is_show: bool,
    pub episodes: nat,
    pub code: Seq<char>,
    pub heading: bool,
}

pub struct CardSpec {
    pub item_id: Seq<char>,
    pub label: Seq<char>,
    pub title: Seq<char>,
    pub original: Seq<char>,
    pub facts: Seq<char>,
    pub genres: Seq<char>,
    pub note: Seq<char>,
    pub note_italic: bool,
    pub has_poster: bool,
    pub episode: Seq<char>,
}

pub struct ViewSpec {
    pub tabs: Seq<TabSpec>,
    pub active_tab: nat,
    pub rows: Seq<RowSpec>,
    pub selected: nat,
    pub filter: Seq<char>,
    pub shown: nat,
    pub total: nat,
    pub crumb: Seq<char>,
    pub card: CardSpec,
}

impl vstd::view::View for Tab {
    type V = TabSpec;

    open spec fn view(&self) -> TabSpec {
        TabSpec { id: self.id@, label: self.label@, count: self.count as nat }
    }
}

impl vstd::view::View for Row {
    type V = RowSpec;

    open spec fn view(&self) -> RowSpec {
        RowSpec {
            id: self.id@,
            number: self.number as nat,
            title: self.title@,
            year: self.year,
            is_show: self.is_show,
            episodes: self.episodes as nat,
            code: self.code@,
            heading: self.heading,
        }
    }
}

impl vstd::view::View for Card {
    type V = CardSpec;

    open spec fn view(&self) -> CardSpec {
        CardSpec {
            item_id: self.item_id@,
            label: self.label@,
            title: self.title@,
            original: self.original@,
            facts: self.facts@,
            genres: self.genres@,
            note: self.note@,
            note_italic: self.note_italic,
            has_poster: self.has_poster,
            episode: self.episode@,
        }
    }
}

impl vstd::view::View for View {
    type V = ViewSpec;

    open spec fn view(&self) -> ViewSpec {
        ViewSpec {
            tabs: self.tabs@.map_values(|t: Tab| t@),
            active_tab: self.active_tab as nat,
            rows: self.rows@.map_values(|r: Row| r@),
            selected: self.selected as nat,
            filter: self.filter@,
            shown: self.shown as nat,
            total: self.total as nat,
            crumb: self.crumb@,
            card: self.card@,
        }
    }
}

/// A row with nothing in it.
pub open spec fn empty_row() -> RowSpec {
    RowSpec {
        id: seq![],
        number: 0,
        title: seq![],
        year: None,
        is_show: false,
        episodes: 0,
        code: seq![],
        heading: false,
    }
}

impl Row {
    fn empty() -> (r: Row)
        ensures
            r@ == empty_row(),
    {
        Row {
            id: String::new(),
            number: 0,
            title: String::new(),
            year: None,
            is_show: false,
            episodes: 0,
            code: String::new(),
            heading: false,
        }
    }
}

/// A card with nothing in it.
pub open spec fn empty_card() -> CardSpec {
    CardSpec {
        item_id: seq![],
        label: seq![],
        title: seq![],
        original: seq![],
        facts: seq![],
        genres: seq![],
        note: seq![],
        note_italic: false,
        has_poster: false,
        episode: seq![],
    }
}

impl Card {
    /// A card with nothing in it (`Card::default()`).
    pub fn empty() -> (c: Card)
        ensures
            c@ == empty_card(),
    {
        Card {
            item_id: String::new(),
            label: String::new(),
            title: String::new(),
            original: String::new(),
            facts: String::new(),
            genres: String::new(),
            note: String::new(),
            note_italic: false,
            has_poster: false,
            episode: String::new(),
        }
    }
}

impl Default for Card {
    fn default() -> (c: Card)
        ensures
            c@ == empty_card(),
    {
        Card::empty()
    }
}

// ---------------------------------------------------------------------------------------------
// Wording

/// `S02 · E03` for an episode.
pub open spec fn episode_code_spec(e: Episode) -> Seq<char> {
    seq!['S'] + crate::text::dec_pad(e.season as nat, 2) + " · E"@ + crate::text::dec_pad(e.episode as nat, 2)
}

fn episode_code(e: &Episode) -> (r: String)
    ensures
        r@ == episode_code_spec(*e),
{
    let mut s = String::new();
    crate::text::push_char(&mut s, 'S');
    crate::text::push_dec(&mut s, e.season as u64, 2);
    crate::text::push_str(&mut s, " · E");
    crate::text::push_dec(&mut s, e.episode as u64, 2);
    assert(s@ =~= episode_code_spec(*e));
    s
}

/// The metadata that counts as found: with a provider id.
pub open spec fn found_meta(meta: Option<Meta>) -> Option<Meta> {
    match meta {
        Some(m) => if m.tmdb_id is Some { Some(m) } else { None },
        None => None,
    }
}

/// The year the card shows: the provider's, else the parsed one.
pub open spec fn card_year(item: Item, meta: Option<Meta>) -> Option<u16> {
    match found_meta(meta) {
        Some(m) => match m.year {
            Some(y) => Some(y),
            None => item.year,
        },
        None => item.year,
    }
}

pub open spec fn year_piece(item: Item, meta: Option<Meta>) -> Seq<Seq<char>> {
    match card_year(item, meta) {
        Some(y) => seq![crate::text::dec(y as nat)],
        None => seq![],
    }
}

pub open spec fn show_piece(item: Item) -> Seq<Seq<char>> {
    if item.kind == Kind::Show {
        seq![crate::text::dec(item.seasons@.len()) + " seasons · "@ + crate::text::dec(episode_total(item)) + " episodes"@]
    } else {
        seq![]
    }
}

pub open spec fn runtime_piece(meta: Option<Meta>) -> Seq<Seq<char>> {
    match found_meta(meta) {
        Some(m) => match m.runtime {
            Some(r) => seq![crate::text::dec(r as nat) + " min"@],
            None => seq![],
        },
        None => seq![],
    }
}

/// The rating with one decimal, from tenths.
pub open spec fn rating_piece(meta: Option<Meta>) -> Seq<Seq<char>> {
    match found_meta(meta) {
        Some(m) => match m.rating {
            Some(t) => seq!["★ "@ + crate::text::dec((t / 10) as nat) + seq!['.'] + crate::text::dec((t % 10) as nat)],
            None => seq![],
        },
        None => seq![],
    }
}

/// The facts line, piece by piece: year (from the provider, else parsed), season and episode
/// counts for a show, running time and rating from the provider.
pub open spec fn fact_pieces(item: Item, meta: Option<Meta>) -> Seq<Seq<char>> {
    year_piece(item, meta) + show_piece(item) + runtime_piece(meta) + rating_piece(meta)
}

/// The card for one item, with or without metadata.
pub open spec fn card_for_spec(item: Item, meta: Option<Meta>, category: Seq<char>, number: nat) -> CardSpec {
    let found = found_meta(meta);
    CardSpec {
        item_id: item.id@,
        label: "Card · "@ + category + " No. "@ + crate::text::dec_pad(number, 3),
        title: match found {
            Some(m) => m.title@,
            None => item.title@,
        },
        original: match found {
            Some(m) => if m.original_title@ != m.title@ && m.original_title@.len() > 0 {
                m.original_title@
            } else {
                seq![]
            },
            None => seq![],
        },
        facts: crate::text::join(fact_pieces(item, meta), " · "@),
        genres: match found {
            Some(m) => crate::text::join(crate::tmdb::views(m.genres@), " / "@),
            None => seq![],
        },
        note: match found {
            Some(m) => if m.overview@.len() > 0 {
                m.overview@
            } else {
                "No synopsis available."@
            },
            None => if meta is Some {
                "No match on TMDB."@
            } else {
                "Metadata pending"@
            },
        },
        note_italic: match found {
            Some(m) => m.overview@.len() == 0,
            None => true,
        },
        has_poster: match meta {
            Some(m) => m.poster_file is Some,
            None => false,
        },
        episode: seq![],
    }
}

/// The card for one item, with or without metadata. The only place that words it.
pub fn card_for(item: &Item, meta: Option<&Meta>, category: &str, number: usize) -> (c: Card)
    requires
        episode_total(*item) <= usize::MAX,
    ensures
        c@ == card_for_spec(*item, crate::search::opt_meta(meta), category@, number as nat),
{
    let ghost m0 = crate::search::opt_meta(meta);
    let found: Option<&Meta> = match meta {
        Some(m) => if m.tmdb_id.is_some() { Some(m) } else { None },
        None => None,
    };
    let mut facts: Vec<String> = Vec::new();
    let year: Option<u16> = match found {
        Some(m) => match m.year {
            Some(y) => Some(y),
            None => item.year,
        },
        None => item.year,
    };
    if let Some(y) = year {
        facts.push(crate::text::dec_string(y as u64));
    }
    assert(facts@.map_values(|w: String| w@) =~= year_piece(*item, m0));
    if item.kind == Kind::Show {
        let mut s = crate::text::dec_string(item.seasons.len() as u64);
        crate::text::push_str(&mut s, " seasons · ");
        let n = item.episode_count();
        crate::text::push_dec(&mut s, n as u64, 0);
        crate::text::push_str(&mut s, " episodes");
        assert(crate::text::dec_pad(n as nat, 0) == crate::text::dec(n as nat));
        facts.push(s);
    }
    assert(facts@.map_values(|w: String| w@) =~= year_piece(*item, m0) + show_piece(*item));
    if let Some(m) = found {
        if let Some(r) = m.runtime {
            let mut s = crate::text::dec_string(r as u64);
            crate::text::push_str(&mut s, " min");
            facts.push(s);
        }
    }
    assert(facts@.map_values(|w: String| w@) =~= year_piece(*item, m0) + show_piece(*item) + runtime_piece(m0));
    if let Some(m) = found {
        if let Some(t) = m.rating {
            let mut s = String::new();
            crate::text::push_str(&mut s, "★ ");
            crate::text::push_dec(&mut s, (t / 10) as u64, 0);
            crate::text::push_char(&mut s, '.');
            crate::text::push_dec(&mut s, (t % 10) as u64, 0);
            assert(crate::text::dec_pad((t / 10) as nat, 0) == crate::text::dec((t / 10) as nat));
            assert(crate::text::dec_pad((t % 10) as nat, 0) == crate::text::dec((t % 10) as nat));
            assert(s@ =~= "★ "@ + crate::text::dec((t / 10) as nat) + seq!['.'] + crate::text::dec((t % 10) as nat));
            facts.push(s);
        }
    }
    proof {
        assert(facts@.map_values(|w: String| w@) =~= fact_pieces(*item, m0));
    }
    let facts_s = crate::text::join_strings(&facts, " · ");
    let (note, note_italic) = match found {
        Some(m) => if !m.overview.as_str().is_empty() {
            (m.overview.clone(), false)
        } else {
            ("No synopsis available.".to_string(), true)
        },
        None => if meta.is_some() {
            ("No match on TMDB.".to_string(), true)
        } else {
            ("Metadata pending".to_string(), true)
        },
    };
    let mut label = String::new();
    crate::text::push_str(&mut label, "Card · ");
    crate::text::push_str(&mut label, category);
    crate::text::push_str(&mut label, " No. ");
    crate::text::push_dec(&mut label, number as u64, 3);
    let title = match found {
        Some(m) => m.title.clone(),
        None => item.title.clone(),
    };
    let original = match found {
        Some(m) => if m.original_title != m.title && !m.original_title.as_str().is_empty() {
            m.original_title.clone()
        } else {
            String::new()
        },
        None => String::new(),
    };
    let genres = match found {
        Some(m) => crate::text::join_strings(&m.genres, " / "),
        None => String::new(),
    };
    let has_poster = match meta {
        Some(m) => m.poster_file.is_some(),
        None => false,
    };
    Card {
        item_id: item.id.clone(),
        label,
        title,
        original,
        facts: facts_s,
        genres,
        note,
        note_italic,
        has_poster,
        episode: String::new(),
    }
}


/// The tab that searches every category at once. Only shown when there is something to merge.
pub const ALL_TAB_ID: &'static str = "all";

// ---------------------------------------------------------------------------------------------
// Specs of what the browser shows

/// The item the card is about: the open show, else the selected line.
pub open spec fn selected_item_spec(index: Index, st: BrowserState) -> Option<Item> {
    let shown = match st.open {
        Some((id, _)) => find_show(index, id),
        None => None,
    };
    match shown {
        Some(s) => Some(s),
        None => if st.selected < st.visible.len() {
            Some(item_at(index, st.visible[st.selected as int]))
        } else {
            None
        },
    }
}

/// `S01 · E02`, followed by ` · ` and the stored title when there is one.
pub open spec fn episode_line(meta: Map<Seq<char>, Meta>, show: Item, e: Episode) -> Seq<char> {
    let title = match meta_for(meta, show.id@) {
        Some(m) => crate::meta::episode_title(m.episodes@, crate::tmdb::episode_key_spec(e.season, e.episode)),
        None => None,
    };
    match title {
        Some(t) => episode_code_spec(e) + " · "@ + t,
        None => episode_code_spec(e),
    }
}

/// The card: an italic note when nothing is selected, else the selected item's card, named
/// after the category of the selected list line, with the selected episode's line inside an
/// open show.
pub open spec fn card_spec(index: Index, meta: Map<Seq<char>, Meta>, st: BrowserState) -> CardSpec {
    match selected_item_spec(index, st) {
        None => CardSpec {
            note: if st.filter.len() == 0 { "Nothing here yet."@ } else { "No match."@ },
            note_italic: true,
            ..empty_card()
        },
        Some(it) => {
            let category = if st.selected < st.visible.len() {
                index.categories@[st.visible[st.selected as int].0 as int].label@
            } else {
                seq![]
            };
            let base = card_for_spec(it, meta_for(meta, it.id@), category, st.selected + 1);
            match st.open {
                Some((id, sel)) => match find_show(index, id) {
                    Some(show) => if sel < episode_total(show) {
                        CardSpec {
                            episode: episode_line(meta, show, flat_episodes(show.seasons@)[sel as int]),
                            ..base
                        }
                    } else {
                        base
                    },
                    None => base,
                },
                None => base,
            }
        },
    }
}

pub open spec fn category_tab(c: Category) -> TabSpec {
    TabSpec { id: c.id@, label: c.label@, count: c.items@.len() }
}

/// The All tab first when there is more than one category, then one per category.
pub open spec fn tabs_spec(index: Index) -> Seq<TabSpec> {
    let cats = index.categories@.map_values(|c: Category| category_tab(c));
    if has_all_tab(index) {
        seq![TabSpec { id: "all"@, label: "All"@, count: item_total(index) }] + cats
    } else {
        cats
    }
}

pub open spec fn list_row(it: Item, number: nat) -> RowSpec {
    RowSpec {
        id: it.id@,
        number: number,
        title: it.title@,
        year: it.year,
        is_show: it.kind == Kind::Show,
        episodes: episode_total(it),
        ..empty_row()
    }
}

pub open spec fn list_rows(index: Index, visible: Seq<(usize, usize)>) -> Seq<RowSpec> {
    Seq::new(visible.len(), |n: int| list_row(item_at(index, visible[n]), (n + 1) as nat))
}

pub open spec fn heading_row(show_id: Seq<char>, s: Season) -> RowSpec {
    RowSpec {
        id: show_id + "/S"@ + crate::text::dec_pad(s.number as nat, 2),
        title: "Season "@ + crate::text::dec(s.number as nat),
        episodes: s.episodes@.len(),
        heading: true,
        ..empty_row()
    }
}

pub open spec fn episode_title_of(m: Option<Meta>, e: Episode) -> Seq<char> {
    match m {
        Some(mm) => match crate::meta::episode_title(mm.episodes@, crate::tmdb::episode_key_spec(e.season, e.episode)) {
            Some(t) => t,
            None => seq![],
        },
        None => seq![],
    }
}

pub open spec fn episode_row(e: Episode, number: nat, m: Option<Meta>) -> RowSpec {
    RowSpec {
        id: e.path@,
        number: number,
        title: episode_title_of(m, e),
        code: episode_code_spec(e),
        ..empty_row()
    }
}

/// Inside a show: per season a heading, then its episodes numbered from 1 across seasons.
pub open spec fn season_rows(show_id: Seq<char>, seasons: Seq<Season>, m: Option<Meta>) -> Seq<RowSpec>
    decreases seasons.len(),
{
    if seasons.len() == 0 {
        seq![]
    } else {
        let prev = seasons.drop_last();
        let start = flat_episodes(prev).len();
        let s = seasons.last();
        season_rows(show_id, prev, m) + seq![heading_row(show_id, s)] + Seq::new(
            s.episodes@.len(),
            |k: int| episode_row(s.episodes@[k], (start + k + 1) as nat, m),
        )
    }
}

/// The row of the `sel`th episode among the season rows.
pub open spec fn selected_row(seasons: Seq<Season>, sel: nat) -> Option<nat>
    decreases seasons.len(),
{
    if seasons.len() == 0 {
        None
    } else {
        let prev = seasons.drop_last();
        match selected_row(prev, sel) {
            Some(r) => Some(r),
            None => {
                let start = flat_episodes(prev).len();
                if start <= sel < start + seasons.last().episodes@.len() {
                    Some(sel + prev.len() + 1)
                } else {
                    None
                }
            },
        }
    }
}

/// Everything on screen.
pub open spec fn view_spec(index: Index, meta: Map<Seq<char>, Meta>, st: BrowserState) -> ViewSpec {
    let base = ViewSpec {
        tabs: tabs_spec(index),
        active_tab: st.tab,
        rows: list_rows(index, st.visible),
        selected: st.selected,
        filter: st.filter,
        shown: st.visible.len(),
        total: tab_items(index, st.tab).len(),
        crumb: seq![],
        card: card_spec(index, meta, st),
    };
    match st.open {
        Some((id, sel)) => match find_show(index, id) {
            Some(show) => ViewSpec {
                rows: season_rows(show.id@, show.seasons@, meta_for(meta, show.id@)),
                selected: match selected_row(show.seasons@, sel) {
                    Some(r) => r,
                    None => st.selected,
                },
                shown: episode_total(show),
                total: episode_total(show),
                crumb: show.title@,
                ..base
            },
            None => base,
        },
        None => base,
    }
}

/// What a rescan does: the tab, the selection, the filter and an open show survive it,
/// unless the show is gone; the lines shown follow the new index.
pub open spec fn after_rescan(index: Index, meta: Map<Seq<char>, Meta>, st: BrowserState) -> BrowserState {
    let r = refiltered(index, meta, st);
    BrowserState {
        open: match st.open {
            Some((id, sel)) => match find_show(index, id) {
                Some(show) => {
                    let last: nat = if episode_total(show) == 0 { 0 } else { (episode_total(show) - 1) as nat };
                    Some((id, if sel < last { sel } else { last }))
                },
                None => None,
            },
            None => None,
        },
        ..r
    }
}

proof fn lemma_found_fits(index: Index, id: Seq<char>)
    requires
        counts_fit(index),
    ensures
        find_show(index, id) matches Some(s) ==> episode_total(s) <= usize::MAX,
{
    lemma_find_item_in(all_items(index.categories@), id);
}

proof fn lemma_item_at_fits(index: Index, p: (usize, usize))
    requires
        counts_fit(index),
        valid_pair(index, p),
    ensures
        episode_total(item_at(index, p)) <= usize::MAX,
{
    lemma_item_at_found(index, p);
    let it = item_at(index, p);
    lemma_found_fits(index, it.id@);
    lemma_item_at_in_all(index, p);
}

proof fn lemma_item_at_in_all(index: Index, p: (usize, usize))
    requires
        valid_pair(index, p),
    ensures
        exists|k: int| 0 <= k < all_items(index.categories@).len() && all_items(index.categories@)[k] == item_at(index, p),
{
    let cats = index.categories@;
    let c = p.0 as int;
    assert(cats =~= cats.take(c) + cats.skip(c));
    lemma_all_items_append(cats.take(c), cats.skip(c));
    lemma_all_items_front(cats.skip(c));
    assert(cats.skip(c)[0] == cats[c]);
    let k = all_items(cats.take(c)).len() + p.1 as int;
    assert(all_items(cats)[k] == item_at(index, p));
}


impl Core {
    /// A fresh scan (see `Browser::set_index`).
    fn set_index(&mut self, index: Index, meta: MetaMap)
        requires
            old(self).wf(),
            counts_fit(index),
        ensures
            final(self).wf(),
            final(self).index_spec() == index,
            final(self).meta_spec() == meta@,
            final(self).root_spec() == old(self).root_spec(),
            final(self).state() == after_rescan(index, meta@, old(self).state()),
    {
        self.index = index;
        self.meta = meta;
        self.refilter();
        let next: Option<Open> = match &self.open {
            Some(open) => match find_show_exec(&self.index, open.id.as_str()) {
                Some(show) => {
                    proof {
                        lemma_found_fits(self.index, open.id@);
                    }
                    let n = show.episode_count();
                    let last = if n == 0 { 0 } else { n - 1 };
                    Some(Open { id: open.id.clone(), selected: if open.selected < last { open.selected } else { last } })
                },
                None => None,
            },
            None => None,
        };
        self.open = next;
    }

    fn set_meta(&mut self, item_id: String, meta: Meta)
        requires
            old(self).wf(),
        ensures
            final(self).wf(),
            final(self).index_spec() == old(self).index_spec(),
            final(self).meta_spec() == old(self).meta_spec().insert(item_id@, meta),
            final(self).root_spec() == old(self).root_spec(),
            final(self).state() == old(self).state(),
    {
        self.meta.insert(item_id, meta);
    }

    fn index(&self) -> (r: &Index)
        ensures
            *r == self.index_spec(),
    {
        &self.index
    }

    fn meta(&self) -> (r: &MetaMap)
        ensures
            r@ == self.meta_spec(),
    {
        &self.meta
    }

    fn item_count(&self) -> (n: usize)
        requires
            self.wf(),
        ensures
            n == item_total(self.index_spec()),
    {
        self.index.item_count()
    }

    /// The item the card is about: the open show, else the selected line.
    fn selected_id(&self) -> (r: Option<&str>)
        requires
            self.wf(),
        ensures
            match r {
                Some(s) => match self.state().open {
                    Some((id, _)) => s@ == id,
                    None => selected_item_spec(self.index_spec(), self.state()) matches Some(it) && s@ == it.id@,
                },
                None => self.state().open is None && selected_item_spec(self.index_spec(), self.state()) is None,
            },
    {
        match &self.open {
            Some(o) => Some(o.id.as_str()),
            None => {
                if self.selected < self.visible.len() {
                    let (c, i) = self.visible[self.selected];
                    Some(self.index.categories[c].items[i].id.as_str())
                } else {
                    None
                }
            },
        }
    }

    fn is_in_show(&self) -> (r: bool)
        ensures
            r == (self.state().open is Some),
    {
        self.open.is_some()
    }

    fn card(&self) -> (c: Card)
        requires
            self.wf(),
        ensures
            c@ == card_spec(self.index_spec(), self.meta_spec(), self.state()),
    {
        let shown: Option<&Item> = match &self.open {
            Some(o) => find_show_exec(&self.index, o.id.as_str()),
            None => None,
        };
        let it: &Item = match shown {
            Some(s) => s,
            None => {
                if self.selected < self.visible.len() {
                    let (c, i) = self.visible[self.selected];
                    &self.index.categories[c].items[i]
                } else {
                    let mut card = Card::empty();
                    card.note = if self.filter.as_str().is_empty() {
                        "Nothing here yet.".to_string()
                    } else {
                        "No match.".to_string()
                    };
                    card.note_italic = true;
                    return card;
                }
            },
        };
        proof {
            match shown {
                Some(s) => {
                    let (oid, _) = self.state().open.unwrap();
                    lemma_found_fits(self.index, oid);
                },
                None => {
                    lemma_item_at_fits(self.index, self.visible@[self.selected as int]);
                },
            }
        }
        let category: &str = if self.selected < self.visible.len() {
            let (c, _) = self.visible[self.selected];
            self.index.categories[c].label.as_str()
        } else {
            proof {
                reveal_strlit("");
            }
            ""
        };
        let mut card = card_for(it, self.meta.get(it.id.as_str()), category, self.selected + 1);
        let ghost st = self.state();
        assert(selected_item_spec(self.index, st) == Some(*it));
        assert(card@ == card_for_spec(*it, meta_for(self.meta@, it.id@), category@, st.selected + 1));
        match (shown, &self.open) {
            (Some(show), Some(open)) => {
                proof {
                    lemma_found_fits(self.index, open.id@);
                }
                let n = show.episode_count();
                if open.selected < n {
                    let e = episode_nth(show, open.selected);
                    let key = crate::tmdb::episode_key(e.season, e.episode);
                    let title: Option<&String> = match self.meta.get(show.id.as_str()) {
                        Some(m) => crate::meta::find_episode_title(&m.episodes, key.as_str()),
                        None => None,
                    };
                    let mut line = episode_code(e);
                    if let Some(t) = title {
                        crate::text::push_str(&mut line, " · ");
                        crate::text::push_str(&mut line, t.as_str());
                    }
                    proof {
                        let e0 = flat_episodes(show.seasons@)[open.selected as int];
                        assert(*e == e0);
                        assert(key@ == crate::tmdb::episode_key_spec(e0.season, e0.episode));
                        assert(line@ == episode_line(self.meta@, *show, e0));
                    }
                    card.episode = line;
                    assert(card@ == CardSpec { episode: line@, ..card_for_spec(*it, meta_for(self.meta@, it.id@), category@, st.selected + 1) });
                }
            },
            _ => {},
        }
        card
    }

    fn tabs(&self) -> (r: Vec<Tab>)
        requires
            self.wf(),
        ensures
            r@.map_values(|t: Tab| t@) == tabs_spec(self.index),
    {
        let ghost cats = self.index.categories@;
        let mut tabs: Vec<Tab> = Vec::new();
        if self.index.categories.len() > 1 {
            tabs.push(Tab { id: ALL_TAB_ID.to_string(), label: "All".to_string(), count: self.index.item_count() });
        }
        let ghost pre = tabs@.map_values(|t: Tab| t@);
        let mut c: usize = 0;
        while c < self.index.categories.len()
            invariant
                c <= cats.len(),
                cats == self.index.categories@,
                tabs@.map_values(|t: Tab| t@) == pre + cats.take(c as int).map_values(|x: Category| category_tab(x)),
            decreases cats.len() - c,
        {
            let cat = &self.index.categories[c];
            let t = Tab { id: cat.id.clone(), label: cat.label.clone(), count: cat.items.len() };
            assert(t@ == category_tab(cats[c as int]));
            let ghost before = tabs@;
            tabs.push(t);
            proof {
                assert(tabs@ == before.push(t));
                assert(tabs@.map_values(|t: Tab| t@) =~= before.map_values(|t: Tab| t@).push(t@));
                assert(cats.take(c + 1).map_values(|x: Category| category_tab(x)) =~= cats.take(c as int).map_values(|x: Category| category_tab(x)).push(category_tab(cats[c as int])));
            }
            c = c + 1;
            assert(tabs@.map_values(|t: Tab| t@) =~= pre + cats.take(c as int).map_values(|x: Category| category_tab(x)));
        }
        assert(cats.take(c as int) =~= cats);
        assert(tabs@.map_values(|t: Tab| t@) =~= tabs_spec(self.index));
        tabs
    }
}


proof fn lemma_selected_row_bound(seasons: Seq<Season>, sel: nat)
    ensures
        selected_row(seasons, sel) is Some ==> sel < flat_episodes(seasons).len(),
    decreases seasons.len(),
{
    if seasons.len() > 0 {
        lemma_selected_row_bound(seasons.drop_last(), sel);
    }
}

proof fn lemma_season_rows_len(show_id: Seq<char>, seasons: Seq<Season>, m: Option<Meta>)
    ensures
        season_rows(show_id, seasons, m).len() == flat_episodes(seasons).len() + seasons.len(),
    decreases seasons.len(),
{
    if seasons.len() > 0 {
        lemma_season_rows_len(show_id, seasons.drop_last(), m);
    }
}

impl Core {
    fn list_rows_exec(&self) -> (rows: Vec<Row>)
        requires
            self.wf(),
        ensures
            rows@.map_values(|r: Row| r@) == list_rows(self.index, self.visible@),
    {
        let mut rows: Vec<Row> = Vec::new();
        let mut n: usize = 0;
        while n < self.visible.len()
            invariant
                self.wf(),
                n <= self.visible@.len(),
                rows@.map_values(|r: Row| r@) == list_rows(self.index, self.visible@).take(n as int),
            decreases self.visible@.len() - n,
        {
            let (c, i) = self.visible[n];
            proof {
                assert(valid_pair(self.index, self.visible@[n as int]));
                lemma_item_at_fits(self.index, self.visible@[n as int]);
            }
            let it = &self.index.categories[c].items[i];
            let row = Row {
                id: it.id.clone(),
                number: n + 1,
                title: it.title.clone(),
                year: it.year,
                is_show: it.kind == Kind::Show,
                episodes: it.episode_count(),
                code: String::new(),
                heading: false,
            };
            let ghost before = rows@;
            rows.push(row);
            proof {
                assert(row@ == list_row(item_at(self.index, self.visible@[n as int]), (n + 1) as nat));
                assert(rows@.map_values(|r: Row| r@) =~= before.map_values(|r: Row| r@).push(row@));
                assert(list_rows(self.index, self.visible@).take(n + 1) =~= list_rows(self.index, self.visible@).take(n as int).push(row@));
            }
            n = n + 1;
        }
        assert(list_rows(self.index, self.visible@).take(n as int) =~= list_rows(self.index, self.visible@));
        rows
    }

    /// Everything on screen (see `Browser::view`).
    fn view(&self) -> (v: View)
        requires
            self.wf(),
        ensures
            v@ == view_spec(self.index_spec(), self.meta_spec(), self.state()),
    {
        let tabs = self.tabs();
        let items = self.items();
        let card = self.card();
        let shown: Option<&Item> = match &self.open {
            Some(o) => find_show_exec(&self.index, o.id.as_str()),
            None => None,
        };
        match shown {
            Some(show) => {
                let sel = match &self.open {
                    Some(o) => o.selected,
                    None => 0,
                };
                proof {
                    let (oid, _) = self.state().open.unwrap();
                    lemma_found_fits(self.index, oid);
                }
                let m = self.meta.get(show.id.as_str());
                let ghost mm = crate::search::opt_meta(m);
                let ghost seasons = show.seasons@;
                let mut rows: Vec<Row> = Vec::new();
                let mut selected = self.selected;
                let mut number: usize = 0;
                let mut j: usize = 0;
                assert(seasons.take(0) =~= Seq::<Season>::empty());
                while j < show.seasons.len()
                    invariant
                        j <= seasons.len(),
                        seasons == show.seasons@,
                        flat_episodes(seasons).len() <= usize::MAX,
                        mm == meta_for(self.meta@, show.id@),
                        mm == crate::search::opt_meta(m),
                        rows@.map_values(|r: Row| r@) == season_rows(show.id@, seasons.take(j as int), mm),
                        number == flat_episodes(seasons.take(j as int)).len(),
                        selected == match selected_row(seasons.take(j as int), sel as nat) {
                            Some(r) => r,
                            None => self.selected as nat,
                        },
                    decreases seasons.len() - j,
                {
                    let s = &show.seasons[j];
                    let ghost start = number as nat;
                    let ghost pre = seasons.take(j as int);
                    proof {
                        assert(seasons.take(j + 1).drop_last() =~= pre);
                        assert(seasons.take(j + 1).last() == *s);
                        lemma_season_rows_len(show.id@, pre, mm);
                        crate::index::lemma_flat_len_mono(seasons, j + 1);
                        assert(flat_episodes(seasons.take(j + 1)) == flat_episodes(pre) + s.episodes@);
                    }
                    let mut hid = show.id.clone();
                    crate::text::push_str(&mut hid, "/S");
                    crate::text::push_dec(&mut hid, s.number as u64, 2);
                    let mut htitle = String::new();
                    crate::text::push_str(&mut htitle, "Season ");
                    crate::text::push_dec(&mut htitle, s.number as u64, 0);
                    let heading = Row {
                        id: hid,
                        number: 0,
                        title: htitle,
                        year: None,
                        is_show: false,
                        episodes: s.episodes.len(),
                        code: String::new(),
                        heading: true,
                    };
                    proof {
                        assert(crate::text::dec_pad(s.number as nat, 0) == crate::text::dec(s.number as nat));
                        assert(heading@ == heading_row(show.id@, *s));
                    }
                    let ghost before = rows@;
                    rows.push(heading);
                    assert(rows@.map_values(|r: Row| r@) =~= season_rows(show.id@, pre, mm) + seq![heading_row(show.id@, *s)]);
                    let ghost head_rows = rows@.map_values(|r: Row| r@);
                    proof {
                        lemma_season_rows_len(show.id@, pre, mm);
                        lemma_selected_row_bound(pre, sel as nat);
                    }
                    let mut k: usize = 0;
                    while k < s.episodes.len()
                        invariant
                            k <= s.episodes@.len(),
                            j < seasons.len(),
                            seasons == show.seasons@,
                            *s == seasons[j as int],
                            pre == seasons.take(j as int),
                            start == flat_episodes(pre).len(),
                            start + s.episodes@.len() <= usize::MAX,
                            mm == meta_for(self.meta@, show.id@),
                            mm == crate::search::opt_meta(m),
                            head_rows.len() == start + j + 1,
                            selected_row(pre, sel as nat) is Some ==> sel < start,
                            number == start + k,
                            rows@.map_values(|r: Row| r@) == head_rows + Seq::new(k as nat, |x: int| episode_row(s.episodes@[x], (start + x + 1) as nat, mm)),
                            selected == match selected_row(pre, sel as nat) {
                                Some(r) => r,
                                None => if start <= sel < start + k { (sel + j + 1) as nat } else { self.selected as nat },
                            },
                        decreases s.episodes@.len() - k,
                    {
                        let e = &s.episodes[k];
                        if number == sel {
                            proof {
                                lemma_season_rows_len(show.id@, pre, mm);
                            }
                            selected = rows.len();
                        }
                        number = number + 1;
                        let key = crate::tmdb::episode_key(e.season, e.episode);
                        let title: String = match m {
                            Some(mt) => match crate::meta::find_episode_title(&mt.episodes, key.as_str()) {
                                Some(t) => t.clone(),
                                None => String::new(),
                            },
                            None => String::new(),
                        };
                        let row = Row {
                            id: e.path.clone(),
                            number,
                            title,
                            year: None,
                            is_show: false,
                            episodes: 0,
                            code: episode_code(e),
                            heading: false,
                        };
                        proof {
                            assert(row@ == episode_row(s.episodes@[k as int], (start + k + 1) as nat, mm));
                        }
                        let ghost before_e = rows@;
                        rows.push(row);
                        proof {
                            assert(rows@.map_values(|r: Row| r@) =~= before_e.map_values(|r: Row| r@).push(row@));
                        }
                        k = k + 1;
                        assert(rows@.map_values(|r: Row| r@) =~= head_rows + Seq::new(k as nat, |x: int| episode_row(s.episodes@[x], (start + x + 1) as nat, mm)));
                    }
                    proof {
                        assert(rows@.map_values(|r: Row| r@) =~= season_rows(show.id@, seasons.take(j + 1), mm));
                    }
                    j = j + 1;
                }
                assert(seasons.take(j as int) =~= seasons);
                View {
                    tabs,
                    active_tab: self.active_tab,
                    rows,
                    selected,
                    filter: self.filter.clone(),
                    shown: number,
                    total: number,
                    crumb: show.title.clone(),
                    card,
                }
            },
            None => {
                let rows = self.list_rows_exec();
                View {
                    tabs,
                    active_tab: self.active_tab,
                    rows,
                    selected: self.selected,
                    filter: self.filter.clone(),
                    shown: self.visible.len(),
                    total: items.len(),
                    crumb: String::new(),
                    card,
                }
            },
        }
    }
}


impl Core {
    /// A browser over nothing.
    fn blank() -> (c: Core)
        ensures
            c.wf(),
    {
        let c = Core {
            root: String::new(),
            index: Index { scanned_at: 0, categories: Vec::new() },
            meta: MetaMap::new(),
            active_tab: 0,
            selected: 0,
            filter: String::new(),
            visible: Vec::new(),
            open: None,
        };
        assert(all_items(c.index.categories@) =~= Seq::<Item>::empty());
        c
    }
}

/// The keyboard model over an index: tabs, a filtered list, an open show, the card and the
/// view. Its invariant (every line points at an item of its tab, the selection is on a line,
/// an open show is in the index) holds at all times.
pub struct Browser {
    core: Core,
}

impl Browser {
    #[verifier::type_invariant]
    spec fn inv(self) -> bool {
        self.core.wf()
    }

    /// The browser's state: tab, selection, filter, lines shown and open show.
    pub closed spec fn state(&self) -> BrowserState {
        self.core.state()
    }

    pub closed spec fn index_spec(&self) -> Index {
        self.core.index_spec()
    }

    pub closed spec fn meta_spec(&self) -> Map<Seq<char>, Meta> {
        self.core.meta_spec()
    }

    pub closed spec fn root_spec(&self) -> Seq<char> {
        self.core.root_spec()
    }

    /// A browser on the first tab, nothing typed, the first line selected.
    pub fn new(index: Index, meta: MetaMap, root: String) -> (b: Browser)
        requires
            counts_fit(index),
        ensures
            b.index_spec() == index,
            b.meta_spec() == meta@,
            b.root_spec() == root@,
            b.state() == refiltered(
                index,
                meta@,
                BrowserState { tab: 0, selected: 0, filter: seq![], visible: seq![], open: None },
            ),
    {
        Browser { core: Core::new(index, meta, root) }
    }

    /// Applies one action. Inside an open show, movement moves between episodes (skipping
    /// season headings), `NextTab`/`PrevTab` jump to the next or previous season, `Activate`
    /// plays the selected episode, `Backspace`/`Clear` leave the show and typing is ignored.
    /// In the list, movement moves the selection, the tab keys switch tabs both ways with
    /// wrap-around, typing edits the filter, `Clear` on an empty filter is not handled, and
    /// `Activate` opens a show or plays a file.
    pub fn apply(&mut self, action: Action) -> (r: Option<Effect>)
        ensures
            final(self).index_spec() == old(self).index_spec(),
            final(self).meta_spec() == old(self).meta_spec(),
            final(self).root_spec() == old(self).root_spec(),
            (final(self).state(), effect_spec(r)) == apply_spec(
                old(self).index_spec(),
                old(self).meta_spec(),
                old(self).root_spec(),
                old(self).state(),
                action,
            ),
    {
        proof {
            use_type_invariant(&*self);
        }
        let mut core = Core::blank();
        std::mem::swap(&mut core, &mut self.core);
        let r = core.apply(action);
        self.core = core;
        r
    }

    /// A fresh scan. The tab, the selection, the filter and an open show survive it, unless
    /// the show is gone.
    pub fn set_index(&mut self, index: Index, meta: MetaMap)
        requires
            counts_fit(index),
        ensures
            final(self).index_spec() == index,
            final(self).meta_spec() == meta@,
            final(self).root_spec() == old(self).root_spec(),
            final(self).state() == after_rescan(index, meta@, old(self).state()),
    {
        proof {
            use_type_invariant(&*self);
        }
        let mut core = Core::blank();
        std::mem::swap(&mut core, &mut self.core);
        core.set_index(index, meta);
        self.core = core;
    }

    /// Metadata for one item: stored, nothing else changes.
    pub fn set_meta(&mut self, item_id: String, meta: Meta)
        ensures
            final(self).index_spec() == old(self).index_spec(),
            final(self).meta_spec() == old(self).meta_spec().insert(item_id@, meta),
            final(self).root_spec() == old(self).root_spec(),
            final(self).state() == old(self).state(),
    {
        proof {
            use_type_invariant(&*self);
        }
        let mut core = Core::blank();
        std::mem::swap(&mut core, &mut self.core);
        core.set_meta(item_id, meta);
        self.core = core;
    }

    pub fn index(&self) -> (r: &Index)
        ensures
            *r == self.index_spec(),
    {
        self.core.index()
    }

    pub fn meta(&self) -> (r: &MetaMap)
        ensures
            r@ == self.meta_spec(),
    {
        self.core.meta()
    }

    /// How many items the index holds.
    pub fn item_count(&self) -> (n: usize)
        ensures
            n == item_total(self.index_spec()),
    {
        proof {
            use_type_invariant(self);
        }
        self.core.item_count()
    }

    /// The item the card is about: the open show, else the selected line.
    pub fn selected_id(&self) -> (r: Option<&str>)
        ensures
            match r {
                Some(s) => match self.state().open {
                    Some((id, _)) => s@ == id,
                    None => selected_item_spec(self.index_spec(), self.state()) matches Some(it) && s@ == it.id@,
                },
                None => self.state().open is None && selected_item_spec(self.index_spec(), self.state()) is None,
            },
    {
        proof {
            use_type_invariant(self);
        }
        self.core.selected_id()
    }

    pub fn is_in_show(&self) -> (r: bool)
        ensures
            r == (self.state().open is Some),
    {
        self.core.is_in_show()
    }

    /// The card of the open show, else of the selected line.
    pub fn card(&self) -> (c: Card)
        ensures
            c@ == card_spec(self.index_spec(), self.meta_spec(), self.state()),
    {
        proof {
            use_type_invariant(self);
        }
        self.core.card()
    }

    /// Everything on screen: the tabs, the lines of the list (or of the open show, with a
    /// heading per season), the selection among them, the filter, the counts, the crumb and
    /// the card.
    pub fn view(&self) -> (v: View)
        ensures
            v@ == view_spec(self.index_spec(), self.meta_spec(), self.state()),
            view_counts(self.index_spec(), self.state(), v@),
    {
        proof {
            use_type_invariant(self);
            law_the_list_view_counts_its_lines(self.index_spec(), self.meta_spec(), self.state());
        }
        self.core.view()
    }
}

/// Tabs wrap both ways: after the last tab comes the first, before the first the last, and
/// the previous tab undoes the next one. The filter survives a tab switch.
pub proof fn law_tabs_wrap(index: Index, meta: Map<Seq<char>, Meta>, root: Seq<char>, st: BrowserState)
    requires
        st.open is None,
        st.tab < tab_count(index),
    ensures
        ({
            let (s1, e1) = apply_spec(index, meta, root, st, Action::NextTab);
            let (s2, e2) = apply_spec(index, meta, root, s1, Action::PrevTab);
            &&& e1 is None
            &&& e2 is None
            &&& s2.tab == st.tab
            &&& s1.filter == st.filter
            &&& s2.filter == st.filter
            &&& (st.tab + 1 == tab_count(index) ==> s1.tab == 0)
        }),
        st.tab == 0 ==> apply_spec(index, meta, root, st, Action::PrevTab).0.tab == tab_count(index) - 1,
{
    let count = tab_count(index);
    let (s1, e1) = apply_spec(index, meta, root, st, Action::NextTab);
    assert(moved_spec(st.selected, st.visible.len(), Action::NextTab) is None);
    if st.tab + 1 < count {
        assert((st.tab + 1) % count == st.tab + 1) by (nonlinear_arith)
            requires
                st.tab + 1 < count,
        ;
        assert((((st.tab + 1) + count - 1) as nat) % count == st.tab) by (nonlinear_arith)
            requires
                st.tab + 1 < count,
        ;
    } else {
        assert((st.tab + 1) % count == 0) by (nonlinear_arith)
            requires
                st.tab + 1 == count,
        ;
        assert(((0 + count - 1) as nat) % count == st.tab) by (nonlinear_arith)
            requires
                st.tab + 1 == count,
        ;
    }
    assert(s1.open is None);
    assert(moved_spec(s1.selected, s1.visible.len(), Action::PrevTab) is None);
    if st.tab == 0 {
        assert(((0 + count - 1) as nat) % count == count - 1) by (nonlinear_arith)
            requires
                count > 0,
        ;
        assert(moved_spec(st.selected, st.visible.len(), Action::PrevTab) is None);
    }
}

/// Backspace undoes typing: the filter, the tab and the lines shown are back to what the
/// tab and filter give.
pub proof fn law_backspace_undoes_typing(
    index: Index,
    meta: Map<Seq<char>, Meta>,
    root: Seq<char>,
    st: BrowserState,
    c: char,
)
    requires
        st.open is None,
    ensures
        ({
            let (s1, e1) = apply_spec(index, meta, root, st, Action::Type(c));
            let (s2, e2) = apply_spec(index, meta, root, s1, Action::Backspace);
            &&& e1 is None
            &&& e2 is None
            &&& s2.filter == st.filter
            &&& s2.tab == st.tab
            &&& s2.visible == visible_of(index, meta, st.tab, st.filter)
            &&& s2.open is None
        }),
{
    assert(moved_spec(st.selected, st.visible.len(), Action::Type(c)) is None);
    let s1 = apply_spec(index, meta, root, st, Action::Type(c)).0;
    assert(s1.filter == st.filter.push(c));
    assert(moved_spec(s1.selected, s1.visible.len(), Action::Backspace) is None);
    assert(st.filter.push(c).drop_last() =~= st.filter);
}

/// Escape on an empty filter is not the browser's: it answers `Unhandled` and changes nothing.
pub proof fn law_clear_on_an_empty_filter_is_not_handled(
    index: Index,
    meta: Map<Seq<char>, Meta>,
    root: Seq<char>,
    st: BrowserState,
)
    requires
        st.open is None,
        st.filter.len() == 0,
    ensures
        apply_spec(index, meta, root, st, Action::Clear) == (st, Some(EffectSpec::Unhandled)),
{
    assert(moved_spec(st.selected, st.visible.len(), Action::Clear) is None);
}

/// Inside a show, typing is ignored.
pub proof fn law_typing_in_a_show_is_ignored(
    index: Index,
    meta: Map<Seq<char>, Meta>,
    root: Seq<char>,
    st: BrowserState,
    c: char,
)
    requires
        st.open is Some,
    ensures
        apply_spec(index, meta, root, st, Action::Type(c)) == (st, None::<EffectSpec>),
{
}

/// Leaving a show returns to the list as it was: same tab, same line, same filter.
pub proof fn law_leaving_a_show_returns_to_the_same_line(
    index: Index,
    meta: Map<Seq<char>, Meta>,
    root: Seq<char>,
    st: BrowserState,
)
    requires
        st.open matches Some((id, _)) && find_show(index, id) is Some,
    ensures
        apply_spec(index, meta, root, st, Action::Backspace) == (BrowserState { open: None, ..st }, None::<EffectSpec>),
        apply_spec(index, meta, root, st, Action::Clear) == (BrowserState { open: None, ..st }, None::<EffectSpec>),
{
}

/// Movement stays within the list: wherever it starts inside, it lands inside (or on the
/// first line of an empty list).
pub proof fn law_movement_stays_in_the_list(selected: nat, n: nat, action: Action)
    requires
        selected < n || selected == 0,
    ensures
        moved_spec(selected, n, action) matches Some(to) ==> (to < n || (n == 0 && to == 0)),
{
}

/// Filtering pulls the selection back inside the lines left.
pub proof fn law_filtering_pulls_the_selection_back(index: Index, meta: Map<Seq<char>, Meta>, st: BrowserState)
    ensures
        ({
            let r = refiltered(index, meta, st);
            r.selected < r.visible.len() || (r.visible.len() == 0 && r.selected == 0)
        }),
{
}

/// A rescan keeps an open show exactly when the show is still there, and keeps the tab and
/// the filter.
pub proof fn law_a_rescan_keeps_an_open_show_unless_it_is_gone(index: Index, meta: Map<Seq<char>, Meta>, st: BrowserState)
    ensures
        after_rescan(index, meta, st).tab == st.tab,
        after_rescan(index, meta, st).filter == st.filter,
        st.open matches Some((id, _)) ==> (after_rescan(index, meta, st).open is Some <==> find_show(index, id) is Some),
        st.open is None ==> after_rescan(index, meta, st).open is None,
{
}


/// Esc clears a filter: the filter is empty and the lines shown are the whole tab.
pub proof fn law_esc_clears_the_filter(index: Index, meta: Map<Seq<char>, Meta>, root: Seq<char>, st: BrowserState)
    requires
        st.open is None,
        st.filter.len() > 0,
    ensures
        ({
            let (s1, e1) = apply_spec(index, meta, root, st, Action::Clear);
            &&& e1 is None
            &&& s1.filter.len() == 0
            &&& s1.tab == st.tab
            &&& s1.visible == visible_of(index, meta, st.tab, seq![])
        }),
{
    assert(moved_spec(st.selected, st.visible.len(), Action::Clear) is None);
}

/// Enter on a movie or flat item plays its file, under the library root, and changes nothing.
pub proof fn law_enter_plays_the_selected_file(index: Index, meta: Map<Seq<char>, Meta>, root: Seq<char>, st: BrowserState)
    requires
        st.open is None,
        st.selected < st.visible.len(),
        item_at(index, st.visible[st.selected as int]).kind != Kind::Show,
        item_at(index, st.visible[st.selected as int]).path is Some,
    ensures
        apply_spec(index, meta, root, st, Action::Activate) == (
            st,
            Some(EffectSpec::Play(spec_path_join(root, item_at(index, st.visible[st.selected as int]).path.unwrap()@))),
        ),
{
    assert(moved_spec(st.selected, st.visible.len(), Action::Activate) is None);
}


proof fn lemma_all_pairs_items(index: Index, k: int)
    requires
        0 <= k <= index.categories@.len(),
        counts_fit(index),
    ensures
        all_pairs(index.categories@.take(k)).map_values(|p: (usize, usize)| item_at(index, p)) == all_items(
            index.categories@.take(k),
        ),
    decreases k,
{
    let cats = index.categories@;
    let f = |p: (usize, usize)| item_at(index, p);
    if k > 0 {
        lemma_all_pairs_items(index, k - 1);
        let t = cats.take(k);
        assert(t.drop_last() =~= cats.take(k - 1));
        assert(t.last() == cats[k - 1]);
        crate::index::lemma_all_len_mono(cats, k);
        crate::index::lemma_all_len_mono(cats, k - 1);
        assert(all_items(t) == all_items(cats.take(k - 1)) + cats[k - 1].items@);
        let n = cats[k - 1].items@.len();
        assert(n <= usize::MAX) by {
            assert(all_items(t).len() == all_items(cats.take(k - 1)).len() + n);
        }
        let ps = cat_pairs((k - 1) as usize, n);
        assert(ps.map_values(f) =~= cats[k - 1].items@);
        assert(all_pairs(t).map_values(f) =~= all_pairs(cats.take(k - 1)).map_values(f) + ps.map_values(f));
    } else {
        assert(cats.take(0).len() == 0);
    }
}

/// With more than one category, the first tab is All: it lists every item of every category,
/// in index order.
pub proof fn law_the_all_tab_merges_every_category(index: Index)
    requires
        index.categories@.len() > 1,
        counts_fit(index),
    ensures
        tab_items(index, 0).map_values(|p: (usize, usize)| item_at(index, p)) == all_items(index.categories@),
{
    lemma_all_pairs_items(index, index.categories@.len() as int);
    assert(index.categories@.take(index.categories@.len() as int) =~= index.categories@);
}


/// With no filter the list shows every line of the tab; a new browser starts on the first
/// tab with no filter, so it shows every line of that tab.
pub proof fn law_an_empty_filter_shows_the_whole_tab(index: Index, meta: Map<Seq<char>, Meta>, st: BrowserState)
    requires
        st.filter.len() == 0,
    ensures
        refiltered(index, meta, st).visible == tab_items(index, st.tab),
        refiltered(
            index,
            meta,
            BrowserState { tab: 0, selected: 0, filter: seq![], visible: seq![], open: None },
        ).visible == tab_items(index, 0),
{
}

/// What the view promises of its tabs and, outside a show, of its lines.
pub open spec fn view_counts(index: Index, st: BrowserState, v: ViewSpec) -> bool {
    let cats = index.categories@;
    let a: int = if has_all_tab(index) { 1 } else { 0 };
    &&& v.tabs.len() == cats.len() + a
    &&& (a == 1 ==> v.tabs[0].id == "all"@ && v.tabs[0].count == item_total(index))
    &&& forall|c: int|
        0 <= c < cats.len() ==> (#[trigger] v.tabs[c + a]).id == cats[c].id@ && v.tabs[c + a].count
            == cats[c].items@.len()
    &&& (st.open is None ==> {
        &&& v.crumb.len() == 0
        &&& v.rows.len() == v.shown
        &&& v.shown <= v.total
        &&& forall|k: int| 0 <= k < v.rows.len() ==> (#[trigger] v.rows[k]).number == k + 1
        &&& (v.selected < v.rows.len() || (v.rows.len() == 0 && v.selected == 0))
    })
}

/// The list as drawn, for every state the browser can be in: the All tab first when there is
/// more than one category, with every item, then one tab per category with its item count;
/// outside a show the rows are the lines shown, numbered from 1, no more than the tab holds,
/// no crumb, and the selection on a row (or on the first place of an empty list).
/// `Browser::view` promises it of every browser.
pub proof fn law_the_list_view_counts_its_lines(index: Index, meta: Map<Seq<char>, Meta>, st: BrowserState)
    requires
        state_ok(index, st),
    ensures
        view_counts(index, st, view_spec(index, meta, st)),
{
    lemma_subseq_len(st.visible, tab_items(index, st.tab));
}

/// Moving in the list: `Page(by)` moves `by` lines (down when positive, up when negative),
/// stopping at the first and the last line; `Down` and `Up` move one line, stopping likewise;
/// `Home` goes to the first line and `End` to the last. Nothing else changes, and an empty
/// list keeps its selection on the first place.
pub proof fn law_moving_in_the_list(
    index: Index,
    meta: Map<Seq<char>, Meta>,
    root: Seq<char>,
    st: BrowserState,
    by: i32,
)
    requires
        st.open is None,
        st.selected < st.visible.len() || (st.visible.len() == 0 && st.selected == 0),
    ensures
        ({
            let n = st.visible.len() as int;
            let s = st.selected as int;
            let page = apply_spec(index, meta, root, st, Action::Page(by));
            let down = apply_spec(index, meta, root, st, Action::Down);
            let up = apply_spec(index, meta, root, st, Action::Up);
            let home = apply_spec(index, meta, root, st, Action::Home);
            let end = apply_spec(index, meta, root, st, Action::End);
            &&& page.1 is None && down.1 is None && up.1 is None && home.1 is None && end.1 is None
            &&& page.0 == BrowserState { selected: page.0.selected, ..st }
            &&& down.0 == BrowserState { selected: down.0.selected, ..st }
            &&& up.0 == BrowserState { selected: up.0.selected, ..st }
            &&& home.0 == BrowserState { selected: home.0.selected, ..st }
            &&& end.0 == BrowserState { selected: end.0.selected, ..st }
            &&& (n == 0 ==> page.0.selected == 0 && down.0.selected == 0 && up.0.selected == 0
                && home.0.selected == 0 && end.0.selected == 0)
            &&& (n > 0 ==> {
                &&& (by >= 0 ==> page.0.selected == if s + by <= n - 1 { s + by } else { n - 1 })
                &&& (by < 0 ==> page.0.selected == if s + by >= 0 { s + by } else { 0 })
                &&& down.0.selected == if s + 1 <= n - 1 { s + 1 } else { n - 1 }
                &&& up.0.selected == if s - 1 >= 0 { s - 1 } else { 0 }
                &&& home.0.selected == 0
                &&& end.0.selected == n - 1
            })
        }),
{
}

/// The card words what is known of an item. With metadata that has a provider id: its title,
/// its original title when that is not empty and differs from the title (else nothing), its
/// genres joined by ` / `, and its synopsis or `No synopsis available.`. With metadata that found no match: the parsed
/// title, no original title or genres and `No match on TMDB.`. With no metadata yet: the
/// parsed title, no original title or genres and `Metadata pending`. The poster flag says
/// whether a poster file is known; the label names the category and the three-digit number.
pub proof fn law_the_card_words_what_is_known(item: Item, meta: Option<Meta>, category: Seq<char>, number: nat)
    ensures
        ({
            let c = card_for_spec(item, meta, category, number);
            &&& c.item_id == item.id@
            &&& c.label == "Card · "@ + category + " No. "@ + crate::text::dec_pad(number, 3)
            &&& match meta {
                Some(m) => if m.tmdb_id is Some {
                    &&& c.title == m.title@
                    &&& c.genres == crate::text::join(crate::tmdb::views(m.genres@), " / "@)
                    &&& (m.original_title@.len() > 0 && m.original_title@ != m.title@ ==> c.original
                        == m.original_title@)
                    &&& (m.original_title@.len() == 0 || m.original_title@ == m.title@ ==> c.original.len() == 0)
                    &&& (m.overview@.len() > 0 ==> c.note == m.overview@ && !c.note_italic)
                    &&& (m.overview@.len() == 0 ==> c.note == "No synopsis available."@ && c.note_italic)
                    &&& c.has_poster == (m.poster_file is Some)
                } else {
                    &&& c.title == item.title@
                    &&& c.original.len() == 0
                    &&& c.genres.len() == 0
                    &&& c.note == "No match on TMDB."@
                    &&& c.note_italic
                    &&& c.has_poster == (m.poster_file is Some)
                },
                None => {
                    &&& c.title == item.title@
                    &&& c.original.len() == 0
                    &&& c.genres.len() == 0
                    &&& c.note == "Metadata pending"@
                    &&& c.note_italic
                    &&& !c.has_poster
                },
            }
        }),
{
}

} // verus!

