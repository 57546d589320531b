//! What the app stores for an item. The provider fills the fields it knows; poster_file,
//! requested, version and episodes are the app's own bookkeeping.
use crate::tmdb::MediaKind;
use vstd::prelude::*;

verus! {

/// Cache format version. Metadata written under another version is fetched again.
pub const VERSION: u32 = 2;

#[derive(Debug, Clone)]
pub struct Meta {
    pub tmdb_id: Option<u64>,
    pub kind: Option<MediaKind>,
    pub title: String,
    pub original_title: String,
    pub year: Option<u16>,
    pub overview: String,
    pub runtime: Option<u32>,
    /// The provider's average vote in tenths, as shown with one decimal: 74 stands for 7.4.
    /// Present only when that average was above zero.
    pub rating: Option<u32>,
    pub genres: Vec<String>,
    /// Production companies, then networks.
    pub companies: Vec<String>,
    /// Creators, directors, then the leading cast.
    pub people: Vec<String>,
    pub keywords: Vec<String>,
    pub poster_url: Option<String>,
    /// Poster file name inside the posters cache directory. Its presence means one was stored.
    pub poster_file: Option<String>,
    /// "S02E03" -> episode title, one entry per key.
    pub episodes: Vec<(String, String)>,
    /// Language the text actually came in.
    pub language: String,
    /// First configured language at fetch time. A different setting now means a refetch.
    pub requested: String,
    /// `VERSION` of the build that wrote it.
    pub version: u32,
    pub fetched_at: u64,
}

/// The title stored for an episode key: the first entry with that key.
pub open spec fn episode_title(pairs: Seq<(String, String)>, key: Seq<char>) -> Option<Seq<char>>
    decreases pairs.len(),
{
    if pairs.len() == 0 {
        None
    } else if pairs[0].0@ == key {
        Some(pairs[0].1@)
    } else {
        episode_title(pairs.drop_first(), key)
    }
}

/// Looks up an episode title by key.
pub fn find_episode_title<'a>(pairs: &'a Vec<(String, String)>, key: &str) -> (r: Option<&'a String>)
    ensures
        match r {
            Some(t) => episode_title(pairs@, key@) == Some(t@),
            None => episode_title(pairs@, key@) is None,
        },
{
    let mut i: usize = 0;
    assert(pairs@.skip(0) =~= pairs@);
    while i < pairs.len()
        invariant
            i <= pairs@.len(),
            episode_title(pairs@, key@) == episode_title(pairs@.skip(i as int), key@),
        decreases pairs@.len() - i,
    {
        assert(pairs@.skip(i as int).drop_first() =~= pairs@.skip(i + 1));
        if crate::text::str_eq(pairs[i].0.as_str(), key) {
            return Some(&pairs[i].1);
        }
        i = i + 1;
    }
    None
}

impl Default for Meta {
    fn default() -> (m: Meta)
        ensures
            m.tmdb_id is None,
            m.kind is None,
            m.title@.len() == 0,
            m.original_title@.len() == 0,
            m.year is None,
            m.overview@.len() == 0,
            m.runtime is None,
            m.rating is None,
            m.genres@.len() == 0,
            m.companies@.len() == 0,
            m.people@.len() == 0,
            m.keywords@.len() == 0,
            m.poster_url is None,
            m.poster_file is None,
            m.episodes@.len() == 0,
            m.language@.len() == 0,
            m.requested@.len() == 0,
            m.version == 0,
            m.fetched_at == 0,
    {
        Meta {
            tmdb_id: None,
            kind: None,
            title: String::new(),
            original_title: String::new(),
            year: None,
            overview: String::new(),
            runtime: None,
            rating: None,
            genres: Vec::new(),
            companies: Vec::new(),
            people: Vec::new(),
            keywords: Vec::new(),
            poster_url: None,
            poster_file: None,
            episodes: Vec::new(),
            language: String::new(),
            requested: String::new(),
            version: 0,
            fetched_at: 0,
        }
    }
}

/// No key is stored twice.
pub open spec fn unique_keys(p: Seq<(String, String)>) -> bool {
    forall|i: int, j: int| 0 <= i < j < p.len() ==> #[trigger] p[i].0@ != #[trigger] p[j].0@
}

proof fn lemma_title_at(p: Seq<(String, String)>, i: int, k: Seq<char>)
    requires
        unique_keys(p),
        0 <= i < p.len(),
        p[i].0@ == k,
    ensures
        episode_title(p, k) == Some(p[i].1@),
    decreases p.len(),
{
    if i > 0 {
        assert(p[0].0@ != p[i].0@);
        assert forall|a: int, b: int| 0 <= a < b < p.drop_first().len() implies #[trigger] p.drop_first()[a].0@ != #[trigger] p.drop_first()[b].0@ by {
            assert(p[a + 1].0@ != p[b + 1].0@);
        }
        lemma_title_at(p.drop_first(), i - 1, k);
    }
}

proof fn lemma_title_absent(p: Seq<(String, String)>, k: Seq<char>)
    requires
        forall|i: int| 0 <= i < p.len() ==> #[trigger] p[i].0@ != k,
    ensures
        episode_title(p, k) is None,
    decreases p.len(),
{
    if p.len() > 0 {
        assert(p[0].0@ != k);
        assert forall|i: int| 0 <= i < p.drop_first().len() implies #[trigger] p.drop_first()[i].0@ != k by {
            assert(p[i + 1].0@ != k);
        }
        lemma_title_absent(p.drop_first(), k);
    }
}

/// Under unique keys, a lookup finds the entry with that key, whatever its position.
pub proof fn lemma_title_lookup(p: Seq<(String, String)>, k: Seq<char>)
    requires
        unique_keys(p),
    ensures
        episode_title(p, k) == if exists|i: int| 0 <= i < p.len() && #[trigger] p[i].0@ == k {
            Some(p[choose|i: int| 0 <= i < p.len() && #[trigger] p[i].0@ == k].1@)
        } else {
            None
        },
{
    if exists|i: int| 0 <= i < p.len() && #[trigger] p[i].0@ == k {
        let i = choose|i: int| 0 <= i < p.len() && #[trigger] p[i].0@ == k;
        lemma_title_at(p, i, k);
    } else {
        lemma_title_absent(p, k);
    }
}

/// Stores a title under a key, replacing what the key held (`BTreeMap::insert`).
pub fn set_episode_title(pairs: &mut Vec<(String, String)>, key: String, title: String)
    requires
        unique_keys(old(pairs)@),
    ensures
        unique_keys(final(pairs)@),
        episode_title(final(pairs)@, key@) == Some(title@),
        forall|k: Seq<char>| k != key@ ==> episode_title(final(pairs)@, k) == episode_title(old(pairs)@, k),
{
    let ghost p0 = pairs@;
    let mut i: usize = 0;
    while i < pairs.len()
        invariant
            i <= pairs@.len(),
            pairs@ == p0,
            old(pairs)@ == p0,
            unique_keys(p0),
            forall|j: int| 0 <= j < i ==> #[trigger] p0[j].0@ != key@,
        decreases pairs@.len() - i,
    {
        if crate::text::str_eq(pairs[i].0.as_str(), key.as_str()) {
            let ghost kv = key@;
            let ghost tv = title@;
            assert(p0[i as int].0@ == kv);
            pairs.set(i, (key, title));
            proof {
                let p1 = pairs@;
                assert(p1[i as int].0@ == kv);
                assert forall|a: int, b: int| 0 <= a < b < p1.len() implies #[trigger] p1[a].0@ != #[trigger] p1[b].0@ by {
                    assert(p1[a].0@ == p0[a].0@);
                    assert(p1[b].0@ == p0[b].0@);
                }
                lemma_title_at(p1, i as int, kv);
                assert forall|k: Seq<char>| k != kv implies episode_title(p1, k) == episode_title(p0, k) by {
                    lemma_title_lookup(p0, k);
                    lemma_title_lookup(p1, k);
                    if exists|j: int| 0 <= j < p0.len() && #[trigger] p0[j].0@ == k {
                        let j = choose|j: int| 0 <= j < p0.len() && #[trigger] p0[j].0@ == k;
                        assert(p1[j].0@ == k);
                        lemma_title_at(p0, j, k);
                        lemma_title_at(p1, j, k);
                    } else {
                        assert forall|j: int| 0 <= j < p1.len() implies #[trigger] p1[j].0@ != k by {
                            assert(p1[j].0@ == p0[j].0@);
                        }
                        lemma_title_absent(p1, k);
                    }
                }
            }
            return;
        }
        i = i + 1;
    }
    let ghost kv = key@;
    let ghost tv = title@;
    pairs.push((key, title));
    proof {
        let p1 = pairs@;
        assert forall|a: int, b: int| 0 <= a < b < p1.len() implies #[trigger] p1[a].0@ != #[trigger] p1[b].0@ by {
            if b < p0.len() {
                assert(p1[a] == p0[a]);
                assert(p1[b] == p0[b]);
            } else {
                assert(p1[a] == p0[a]);
            }
        }
        lemma_title_at(p1, p0.len() as int, kv);
        assert forall|k: Seq<char>| k != kv implies episode_title(p1, k) == episode_title(p0, k) by {
            if exists|j: int| 0 <= j < p0.len() && #[trigger] p0[j].0@ == k {
                let j = choose|j: int| 0 <= j < p0.len() && #[trigger] p0[j].0@ == k;
                assert(p1[j] == p0[j]);
                lemma_title_at(p0, j, k);
                lemma_title_at(p1, j, k);
            } else {
                assert forall|j: int| 0 <= j < p1.len() implies #[trigger] p1[j].0@ != k by {
                    if j < p0.len() {
                        assert(p1[j] == p0[j]);
                    }
                }
                lemma_title_absent(p0, k);
                lemma_title_absent(p1, k);
            }
        }
    }
}

/// Stores every title of `src` over `dst` (`BTreeMap::extend`).
pub fn merge_episode_titles(dst: &mut Vec<(String, String)>, src: &Vec<(String, String)>)
    requires
        unique_keys(old(dst)@),
    ensures
        unique_keys(final(dst)@),
        forall|k: Seq<char>| #[trigger] episode_title(final(dst)@, k) == match episode_title_last(src@, k) {
            Some(t) => Some(t),
            None => episode_title(old(dst)@, k),
        },
{
    let ghost d0 = dst@;
    let mut i: usize = 0;
    while i < src.len()
        invariant
            i <= src@.len(),
            unique_keys(dst@),
            forall|k: Seq<char>| #[trigger] episode_title(dst@, k) == match episode_title_last(src@.take(i as int), k) {
                Some(t) => Some(t),
                None => episode_title(d0, k),
            },
        decreases src@.len() - i,
    {
        let k = src[i].0.clone();
        let t = src[i].1.clone();
        let ghost before = dst@;
        set_episode_title(dst, k, t);
        proof {
            assert(src@.take(i + 1).drop_last() =~= src@.take(i as int));
            assert(src@.take(i + 1).last() == src@[i as int]);
        }
        i = i + 1;
    }
    assert(src@.take(i as int) =~= src@);
}

/// Under unique keys the first entry with a key is also the last.
pub proof fn lemma_last_is_first(p: Seq<(String, String)>, k: Seq<char>)
    requires
        unique_keys(p),
    ensures
        episode_title_last(p, k) == episode_title(p, k),
    decreases p.len(),
{
    if p.len() > 0 {
        let q = p.drop_last();
        assert forall|a: int, b: int| 0 <= a < b < q.len() implies #[trigger] q[a].0@ != #[trigger] q[b].0@ by {
            assert(p[a].0@ != p[b].0@);
        }
        lemma_last_is_first(q, k);
        if p.last().0@ == k {
            lemma_title_at(p, p.len() - 1, k);
        } else {
            assert forall|i: int| 0 <= i < p.len() && #[trigger] p[i].0@ == k implies i < p.len() - 1 by {}
            if exists|i: int| 0 <= i < q.len() && #[trigger] q[i].0@ == k {
                let i = choose|i: int| 0 <= i < q.len() && #[trigger] q[i].0@ == k;
                lemma_title_at(q, i, k);
                assert(p[i] == q[i]);
                lemma_title_at(p, i, k);
            } else {
                lemma_title_absent(q, k);
                assert forall|i: int| 0 <= i < p.len() implies #[trigger] p[i].0@ != k by {
                    if i < q.len() {
                        assert(p[i] == q[i]);
                    }
                }
                lemma_title_absent(p, k);
            }
        }
    }
}

/// The title the last entry with this key holds.
pub open spec fn episode_title_last(pairs: Seq<(String, String)>, key: Seq<char>) -> Option<Seq<char>>
    decreases pairs.len(),
{
    if pairs.len() == 0 {
        None
    } else if pairs.last().0@ == key {
        Some(pairs.last().1@)
    } else {
        episode_title_last(pairs.drop_last(), key)
    }
}

} // verus!
