//! The index: the stored mirror of what a scan found.
use vstd::prelude::*;

verus! {

#[derive(Debug, Clone, Copy, PartialEq, Eq, Structural)]
pub enum Kind {
    Movie,
    Show,
    Flat,
}

#[derive(Debug, Clone)]
pub struct Episode {
    pub season: u16,
    pub episode: u16,
    /// Relative to the library root.
    pub path: String,
    pub title: Option<String>,
}

#[derive(Debug, Clone)]
pub struct Season {
    pub number: u16,
    pub episodes: Vec<Episode>,
}

#[derive(Debug, Clone)]
pub struct Item {
    /// Stable id: the relative path for files, `<category>/<show>` for shows. Always NFC,
    /// so it survives a macOS disk; `path` stays as the file system spelled it.
    pub id: String,
    pub kind: Kind,
    pub title: String,
    pub year: Option<u16>,
    /// Relative path of the video file. None for shows.
    pub path: Option<String>,
    pub seasons: Vec<Season>,
}

#[derive(Debug, Clone)]
pub struct Category {
    pub id: String,
    pub label: String,
    pub items: Vec<Item>,
}

#[derive(Debug, Clone)]
pub struct Index {
    /// Seconds since the Unix epoch.
    pub scanned_at: u64,
    pub categories: Vec<Category>,
}

/// The episodes of a show, seasons flattened in order.
pub open spec fn flat_episodes(seasons: Seq<Season>) -> Seq<Episode>
    decreases seasons.len(),
{
    if seasons.len() == 0 {
        seq![]
    } else {
        flat_episodes(seasons.drop_last()) + seasons.last().episodes@
    }
}

pub open spec fn episode_total(item: Item) -> nat {
    flat_episodes(item.seasons@).len()
}

/// The items of the first `n` categories, in order.
pub open spec fn all_items(cats: Seq<Category>) -> Seq<Item>
    decreases cats.len(),
{
    if cats.len() == 0 {
        seq![]
    } else {
        all_items(cats.drop_last()) + cats.last().items@
    }
}

pub open spec fn item_total(index: Index) -> nat {
    all_items(index.categories@).len()
}

/// Every count the index can be asked for fits in a `usize`.
pub open spec fn counts_fit(index: Index) -> bool {
    &&& index.categories@.len() < usize::MAX
    &&& item_total(index) <= usize::MAX
    &&& forall|i: int| 0 <= i < all_items(index.categories@).len()
        ==> episode_total(#[trigger] all_items(index.categories@)[i]) <= usize::MAX
}

/// Flattening splits at any season boundary.
pub proof fn lemma_flat_split(s: Seq<Season>, a: int)
    requires
        0 <= a <= s.len(),
    ensures
        flat_episodes(s) == flat_episodes(s.take(a)) + flat_episodes(s.skip(a)),
    decreases s.len(),
{
    if a == s.len() {
        assert(s.take(a) =~= s);
        assert(s.skip(a) =~= Seq::<Season>::empty());
        assert(flat_episodes(s) + Seq::<Episode>::empty() =~= flat_episodes(s));
    } else {
        lemma_flat_split(s.drop_last(), a);
        assert(s.drop_last().take(a) =~= s.take(a));
        assert(s.skip(a).drop_last() =~= s.drop_last().skip(a));
        assert(s.skip(a).last() == s.last());
        assert(flat_episodes(s) =~= flat_episodes(s.take(a)) + flat_episodes(s.skip(a)));
    }
}

/// The first season of a suffix contributes the first episodes of its flattening.
pub proof fn lemma_flat_front(s: Seq<Season>)
    requires
        s.len() > 0,
    ensures
        flat_episodes(s) == s[0].episodes@ + flat_episodes(s.drop_first()),
{
    lemma_flat_split(s, 1);
    assert(s.take(1).drop_last() =~= Seq::<Season>::empty());
    assert(flat_episodes(Seq::<Season>::empty()) =~= Seq::<Episode>::empty());
    assert(s.take(1).last() == s[0]);
    assert(flat_episodes(s.take(1)) =~= s[0].episodes@);
    assert(s.skip(1) =~= s.drop_first());
}

pub proof fn lemma_flat_len_mono(s: Seq<Season>, k: int)
    requires
        0 <= k <= s.len(),
    ensures
        flat_episodes(s.take(k)).len() <= flat_episodes(s).len(),
    decreases s.len() - k,
{
    if k < s.len() {
        lemma_flat_len_mono(s.drop_last(), k);
        assert(s.drop_last().take(k) =~= s.take(k));
    } else {
        assert(s.take(k) =~= s);
    }
}

pub proof fn lemma_all_len_mono(s: Seq<Category>, k: int)
    requires
        0 <= k <= s.len(),
    ensures
        all_items(s.take(k)).len() <= all_items(s).len(),
    decreases s.len() - k,
{
    if k < s.len() {
        lemma_all_len_mono(s.drop_last(), k);
        assert(s.drop_last().take(k) =~= s.take(k));
    } else {
        assert(s.take(k) =~= s);
    }
}

impl Item {
    /// Episodes over every season.
    pub fn episode_count(&self) -> (n: usize)
        requires
            episode_total(*self) <= usize::MAX,
        ensures
            n == episode_total(*self),
    {
        let mut n: usize = 0;
        let mut i: usize = 0;
        while i < self.seasons.len()
            invariant
                i <= self.seasons@.len(),
                flat_episodes(self.seasons@).len() <= usize::MAX,
                n == flat_episodes(self.seasons@.take(i as int)).len(),
            decreases self.seasons@.len() - i,
        {
            proof {
                assert(self.seasons@.take(i + 1).drop_last() =~= self.seasons@.take(i as int));
                lemma_flat_len_mono(self.seasons@, i + 1);
            }
            n = n + self.seasons[i].episodes.len();
            i = i + 1;
        }
        assert(self.seasons@.take(i as int) =~= self.seasons@);
        n
    }
}

impl Index {
    /// Items over every category.
    pub fn item_count(&self) -> (n: usize)
        requires
            item_total(*self) <= usize::MAX,
        ensures
            n == item_total(*self),
    {
        let mut n: usize = 0;
        let mut i: usize = 0;
        while i < self.categories.len()
            invariant
                i <= self.categories@.len(),
                all_items(self.categories@).len() <= usize::MAX,
                n == all_items(self.categories@.take(i as int)).len(),
            decreases self.categories@.len() - i,
        {
            proof {
                assert(self.categories@.take(i + 1).drop_last() =~= self.categories@.take(i as int));
                lemma_all_len_mono(self.categories@, i + 1);
            }
            n = n + self.categories[i].items.len();
            i = i + 1;
        }
        assert(self.categories@.take(i as int) =~= self.categories@);
        n
    }

}

impl Default for Index {
    /// An index with nothing in it.
    fn default() -> (r: Index)
        ensures
            r.scanned_at == 0,
            r.categories@.len() == 0,
    {
        Index { scanned_at: 0, categories: Vec::new() }
    }
}


/// What an episode holds, as plain values.
pub struct EpisodeView {
    pub season: u16,
    pub episode: u16,
    pub path: Seq<char>,
    pub title: Option<Seq<char>>,
}

pub struct SeasonView {
    pub number: u16,
    pub episodes: Seq<EpisodeView>,
}

/// What an item holds, as plain values.
pub struct ItemView {
    pub id: Seq<char>,
    pub kind: Kind,
    pub title: Seq<char>,
    pub year: Option<u16>,
    pub path: Option<Seq<char>>,
    pub seasons: Seq<SeasonView>,
}

pub open spec fn episode_view(e: Episode) -> EpisodeView {
    EpisodeView {
        season: e.season,
        episode: e.episode,
        path: e.path@,
        title: match e.title {
            Some(t) => Some(t@),
            None => None,
        },
    }
}

pub open spec fn episodes_view(v: Seq<Episode>) -> Seq<EpisodeView> {
    v.map_values(|e: Episode| episode_view(e))
}

pub open spec fn season_view(s: Season) -> SeasonView {
    SeasonView { number: s.number, episodes: episodes_view(s.episodes@) }
}

pub open spec fn item_view(it: Item) -> ItemView {
    ItemView {
        id: it.id@,
        kind: it.kind,
        title: it.title@,
        year: it.year,
        path: match it.path {
            Some(p) => Some(p@),
            None => None,
        },
        seasons: it.seasons@.map_values(|s: Season| season_view(s)),
    }
}

pub open spec fn items_view(v: Seq<Item>) -> Seq<ItemView> {
    v.map_values(|it: Item| item_view(it))
}


impl Index {
    /// Every count the index can be asked for fits in a `usize`: what the browser needs of an
    /// index it is given.
    pub fn counts_fit(&self) -> (r: bool)
        ensures
            r == counts_fit(*self),
    {
        if self.categories.len() == usize::MAX {
            return false;
        }
        let ghost all = all_items(self.categories@);
        let mut total: usize = 0;
        let mut c: usize = 0;
        while c < self.categories.len()
            invariant
                c <= self.categories@.len(),
                self.categories@.len() < usize::MAX,
                all == all_items(self.categories@),
                total == all_items(self.categories@.take(c as int)).len(),
                forall|i: int| 0 <= i < total ==> episode_total(#[trigger] all_items(self.categories@.take(c as int))[i]) <= usize::MAX,
            decreases self.categories@.len() - c,
        {
            let items = &self.categories[c].items;
            let ghost before = all_items(self.categories@.take(c as int));
            proof {
                assert(self.categories@.take(c + 1).drop_last() =~= self.categories@.take(c as int));
                assert(all_items(self.categories@.take(c + 1)) == before + items@);
            }
            if items.len() > usize::MAX - total {
                proof {
                    lemma_all_len_mono(self.categories@, c + 1);
                }
                return false;
            }
            let mut i: usize = 0;
            while i < items.len()
                invariant
                    i <= items@.len(),
                    c < self.categories@.len(),
                    before == all_items(self.categories@.take(c as int)),
                    all_items(self.categories@.take(c + 1)) == before + items@,
                    items@ == self.categories@[c as int].items@,
                    forall|j: int| 0 <= j < before.len() ==> episode_total(#[trigger] before[j]) <= usize::MAX,
                    forall|j: int| 0 <= j < i ==> episode_total(#[trigger] items@[j]) <= usize::MAX,
                decreases items@.len() - i,
            {
                let it = &items[i];
                let mut n: usize = 0;
                let mut s: usize = 0;
                while s < it.seasons.len()
                    invariant
                        s <= it.seasons@.len(),
                        c < self.categories@.len(),
                        i < items@.len(),
                        *it == items@[i as int],
                        before == all_items(self.categories@.take(c as int)),
                        all_items(self.categories@.take(c + 1)) == before + items@,
                        n == flat_episodes(it.seasons@.take(s as int)).len(),
                    decreases it.seasons@.len() - s,
                {
                    proof {
                        assert(it.seasons@.take(s + 1).drop_last() =~= it.seasons@.take(s as int));
                    }
                    if it.seasons[s].episodes.len() > usize::MAX - n {
                        proof {
                            lemma_flat_len_mono(it.seasons@, s + 1);
                            lemma_all_len_mono(self.categories@, c + 1);
                            let k = before.len() + i;
                            assert(all_items(self.categories@.take(c + 1))[k] == *it);
                            lemma_item_in_all(self.categories@, c as int, k);
                        }
                        return false;
                    }
                    n = n + it.seasons[s].episodes.len();
                    s = s + 1;
                }
                assert(it.seasons@.take(s as int) =~= it.seasons@);
                i = i + 1;
            }
            proof {
                let now = all_items(self.categories@.take(c + 1));
                assert forall|j: int| 0 <= j < now.len() implies episode_total(#[trigger] now[j]) <= usize::MAX by {
                    if j < before.len() {
                        assert(now[j] == before[j]);
                    } else {
                        assert(now[j] == items@[j - before.len()]);
                    }
                }
            }
            total = total + items.len();
            c = c + 1;
        }
        assert(self.categories@.take(c as int) =~= self.categories@);
        true
    }
}

/// The items of the first categories come first among all items.
proof fn lemma_item_in_all(cats: Seq<Category>, c: int, k: int)
    requires
        0 <= c < cats.len(),
        0 <= k < all_items(cats.take(c + 1)).len(),
    ensures
        all_items(cats)[k] == all_items(cats.take(c + 1))[k],
        k < all_items(cats).len(),
    decreases cats.len() - c,
{
    if c + 1 < cats.len() {
        assert(cats.drop_last().take(c + 1) =~= cats.take(c + 1));
        lemma_item_in_all(cats.drop_last(), c, k);
        assert(cats.drop_last().take(c + 1) =~= cats.take(c + 1));
        lemma_all_len_mono(cats.drop_last(), c + 1);
    } else {
        assert(cats.take(c + 1) =~= cats);
    }
}

} // verus!
