//! Enrichment: what to fetch and how to ask the provider for it. The asking is a sequence of
//! requests whose replies decide the next one; `Lookup` holds that sequence, the caller sends
//! the requests.
use crate::config::Config;
use crate::index::{all_items, Index, Item, Kind};
use crate::meta::{Meta, VERSION};
use crate::tmdb::{self, Client, MediaKind, Request};
use vstd::hash_map::StringHashMap;
use vstd::prelude::*;

verus! {

// ---------------------------------------------------------------------------------------------
// What to fetch

/// The language metadata is wanted in: the first configured one, English when none is.
pub open spec fn wanted_language(c: Config) -> Seq<char> {
    if c.metadata.languages@.len() > 0 {
        c.metadata.languages@[0]@
    } else {
        "en"@
    }
}

/// Metadata is fetched again when there is none, when it was asked in another first language,
/// or when another cache version wrote it.
pub open spec fn needs_fetch(have: Map<Seq<char>, Meta>, id: Seq<char>, want: Seq<char>) -> bool {
    !have.contains_key(id) || have[id].requested@ != want || have[id].version != VERSION
}

/// The items that need fetching, in order.
pub open spec fn pending(items: Seq<Item>, have: Map<Seq<char>, Meta>, want: Seq<char>) -> Seq<Item>
    decreases items.len(),
{
    if items.len() == 0 {
        seq![]
    } else {
        let rest = pending(items.drop_last(), have, want);
        if needs_fetch(have, items.last().id@, want) {
            rest.push(items.last())
        } else {
            rest
        }
    }
}

pub open spec fn deref_items(v: Seq<&Item>) -> Seq<Item> {
    v.map_values(|x: &Item| *x)
}

/// Items whose metadata is missing, was fetched for another first language, or was written
/// by a build with another cache version, in index order.
pub fn missing<'a>(index: &'a Index, have: &StringHashMap<Meta>, config: &Config) -> (r: Vec<&'a Item>)
    ensures
        deref_items(r@) == pending(all_items(index.categories@), have@, wanted_language(*config)),
{
    let want: &str = if config.metadata.languages.len() > 0 {
        config.metadata.languages[0].as_str()
    } else {
        "en"
    };
    let ghost wv = wanted_language(*config);
    let ghost cats = index.categories@;
    let mut out: Vec<&'a Item> = Vec::new();
    let mut c: usize = 0;
    while c < index.categories.len()
        invariant
            c <= cats.len(),
            cats == index.categories@,
            want@ == wv,
            deref_items(out@) == pending(all_items(cats.take(c as int)), have@, wv),
        decreases cats.len() - c,
    {
        let items = &index.categories[c].items;
        let ghost before = all_items(cats.take(c as int));
        proof {
            assert(cats.take(c + 1).drop_last() =~= cats.take(c as int));
        }
        let mut i: usize = 0;
        while i < items.len()
            invariant
                i <= items@.len(),
                items@ == cats[c as int].items@,
                want@ == wv,
                deref_items(out@) == pending(before + items@.take(i as int), have@, wv),
            decreases items@.len() - i,
        {
            let it = &items[i];
            proof {
                assert((before + items@.take(i + 1)).drop_last() =~= before + items@.take(i as int));
                assert((before + items@.take(i + 1)).last() == *it);
            }
            let fetch = match have.get(it.id.as_str()) {
                None => true,
                Some(m) => !crate::text::str_eq(m.requested.as_str(), want) || m.version != VERSION,
            };
            if fetch {
                let ghost prev = out@;
                out.push(it);
                assert(deref_items(out@) =~= deref_items(prev).push(*it));
            }
            i = i + 1;
        }
        assert(items@.take(i as int) =~= items@);
        c = c + 1;
    }
    assert(cats.take(c as int) =~= cats);
    out
}

// ---------------------------------------------------------------------------------------------
// Search strings

/// ` - `, the subtitle separator, starts at `i`.
pub open spec fn sep_at(t: Seq<char>, i: int) -> bool {
    0 <= i && i + 3 <= t.len() && t[i] == ' ' && t[i + 1] == '-' && t[i + 2] == ' '
}

/// Where the first separator at or after `i` starts.
pub open spec fn first_sep_from(t: Seq<char>, i: nat) -> Option<nat>
    decreases t.len() - i,
{
    if i + 3 > t.len() {
        None
    } else if sep_at(t, i as int) {
        Some(i)
    } else {
        first_sep_from(t, i + 1)
    }
}

/// The title as parsed; then, when it holds ` - `, the title with the first one turned into
/// `: ` and the part before it alone.
pub open spec fn variants_spec(t: Seq<char>) -> Seq<Seq<char>> {
    match first_sep_from(t, 0) {
        Some(i) => seq![t, t.take(i as int) + seq![':', ' '] + t.skip(i as int + 3), t.take(i as int)],
        None => seq![t],
    }
}


/// The search strings start with the title as parsed and never repeat one another, so no
/// string is searched twice.
pub proof fn law_title_variants_start_with_the_title_and_differ(t: Seq<char>)
    ensures
        variants_spec(t).len() >= 1,
        variants_spec(t)[0] == t,
        forall|i: int, j: int| 0 <= i < j < variants_spec(t).len() ==> #[trigger] variants_spec(t)[i] != #[trigger] variants_spec(t)[j],
{
    if let Some(i) = first_sep_from(t, 0) {
        lemma_first_sep_fits(t, 0);
        let v = variants_spec(t);
        assert(v[0].len() == t.len());
        assert(v[1].len() == t.len() - 1);
        assert(v[2].len() == i);
    }
}

proof fn lemma_first_sep_fits(t: Seq<char>, from: nat)
    ensures
        first_sep_from(t, from) matches Some(i) ==> i + 3 <= t.len(),
    decreases t.len() - from,
{
    if from + 3 <= t.len() && !sep_at(t, from as int) {
        lemma_first_sep_fits(t, from + 1);
    }
}

/// Search strings to try, in order: the title as parsed, then with the " - " subtitle
/// separator turned into a colon, then the part before the separator alone.
pub fn title_variants(title: &str) -> (r: Vec<String>)
    ensures
        tmdb::views(r@) == variants_spec(title@),
{
    let t = crate::text::chars_of(title);
    let n = t.len();
    let mut i: usize = 0;
    let mut found = false;
    while n >= 3 && i <= n - 3 && !found
        invariant
            n == t@.len(),
            t@ == title@,
            i <= n,
            found ==> sep_at(t@, i as int) && first_sep_from(t@, 0) == Some(i as nat),
            !found ==> first_sep_from(t@, 0) == first_sep_from(t@, i as nat),
        decreases n + 1 - i, (if found { 0int } else { 1int }),
    {
        if t[i] == ' ' && t[i + 1] == '-' && t[i + 2] == ' ' {
            found = true;
        } else {
            i = i + 1;
        }
    }
    let mut v: Vec<String> = Vec::new();
    v.push(title.to_string());
    if found {
        let mut joined = crate::text::string_of(&t.as_slice()[0..i]);
        let head = crate::text::string_of(&t.as_slice()[0..i]);
        crate::text::push_char(&mut joined, ':');
        crate::text::push_char(&mut joined, ' ');
        let tail = crate::text::string_of(&t.as_slice()[i + 3..n]);
        crate::text::push_str(&mut joined, tail.as_str());
        assert(joined@ =~= t@.take(i as int) + seq![':', ' '] + t@.skip(i + 3));
        assert(head@ =~= t@.take(i as int));
        v.push(joined);
        v.push(head);
        assert(tmdb::views(v@) =~= variants_spec(title@));
    } else {
        assert(first_sep_from(t@, i as nat) is None);
        assert(tmdb::views(v@) =~= variants_spec(title@));
    }
    v
}


// ---------------------------------------------------------------------------------------------
// Looking an item up

/// Where a lookup stands: waiting for the search of a title variant, for details in one of
/// the languages, for one season's titles, or done.
#[derive(Debug, Clone, Copy, PartialEq, Eq, Structural)]
pub enum Step {
    Search(usize),
    Details(usize),
    Season(usize),
    Finished,
}

/// What the provider answered to the last request, read by the caller.
pub enum Reply {
    Search(Vec<tmdb::SearchResult>),
    Details(tmdb::Details),
    /// None when the season could not be had; its titles are then left out.
    Season(Option<tmdb::SeasonDetails>),
}

/// What to do next: send a request and answer with its reply, or take the metadata.
#[derive(Debug, Clone)]
pub enum Ask {
    Search(Request),
    Details(Request),
    Season(Request),
    Done,
}

/// Metadata for one item: search, details with language fallback, episode titles for shows.
/// A miss gives the parsed name, so the caller can store it and stop asking every launch.
pub struct Lookup {
    client: Client,
    kind: MediaKind,
    title: String,
    year: Option<u16>,
    seasons: Vec<u16>,
    langs: Vec<String>,
    variants: Vec<String>,
    step: Step,
    id: u64,
    meta: Meta,
}

/// Shows are looked up as TV, everything else as movies.
pub open spec fn kind_for(k: Kind) -> MediaKind {
    match k {
        Kind::Show => MediaKind::Tv,
        _ => MediaKind::Movie,
    }
}

pub open spec fn season_numbers(s: Seq<crate::index::Season>) -> Seq<u16> {
    s.map_values(|x: crate::index::Season| x.number)
}

/// The metadata of a miss: the parsed title and year, in the first language.
pub open spec fn fallback_meta(m: Meta, title: Seq<char>, year: Option<u16>, first: Seq<char>) -> bool {
    &&& m.tmdb_id is None
    &&& m.kind is None
    &&& m.title@ == title
    &&& m.original_title@.len() == 0
    &&& m.year == year
    &&& m.overview@.len() == 0
    &&& m.runtime is None
    &&& m.rating is None
    &&& m.genres@.len() == 0
    &&& m.companies@.len() == 0
    &&& m.people@.len() == 0
    &&& m.keywords@.len() == 0
    &&& m.poster_url is None
    &&& m.poster_file is None
    &&& m.episodes@.len() == 0
    &&& m.language@ == first
    &&& m.requested@ == first
    &&& m.version == VERSION
}

/// Metadata from the details in the first language: the response's fields, asked in that
/// language, with no poster file or episode titles yet and not yet versioned.
pub open spec fn first_details(m: Meta, kind: MediaKind, d: tmdb::Details, first: Seq<char>) -> bool {
    &&& tmdb::details_fields(m, kind, d, first)
    &&& m.poster_file is None
    &&& m.episodes@.len() == 0
    &&& m.requested@ == first
    &&& m.version == 0
}

impl Lookup {
    pub closed spec fn key_spec(&self) -> Seq<char> {
        self.client.key_spec()
    }

    pub closed spec fn kind_spec(&self) -> MediaKind {
        self.kind
    }

    pub closed spec fn title_spec(&self) -> String {
        self.title
    }

    pub closed spec fn year_spec(&self) -> Option<u16> {
        self.year
    }

    pub closed spec fn seasons_spec(&self) -> Seq<u16> {
        self.seasons@
    }

    /// The languages to ask in, the first one first; English when none is configured.
    pub closed spec fn langs_spec(&self) -> Seq<String> {
        self.langs@
    }

    pub closed spec fn variants_spec(&self) -> Seq<String> {
        self.variants@
    }

    pub closed spec fn step_spec(&self) -> Step {
        self.step
    }

    /// The provider id picked, once one is.
    pub closed spec fn id_spec(&self) -> u64 {
        self.id
    }

    /// The metadata gathered so far.
    pub closed spec fn meta_spec(&self) -> Meta {
        self.meta
    }

    pub open spec fn wf(&self) -> bool {
        &&& self.langs_spec().len() > 0
        &&& self.variants_spec().len() > 0
        &&& crate::meta::unique_keys(self.meta_spec().episodes@)
        &&& match self.step_spec() {
            Step::Search(v) => v < self.variants_spec().len(),
            Step::Details(l) => l < self.langs_spec().len(),
            Step::Season(i) => i < self.seasons_spec().len(),
            Step::Finished => true,
        }
    }

    /// The reply is the one the last request asked for.
    pub open spec fn expects(&self, reply: Reply) -> bool {
        match (self.step_spec(), reply) {
            (Step::Search(_), Reply::Search(_)) => true,
            (Step::Details(_), Reply::Details(_)) => true,
            (Step::Season(_), Reply::Season(_)) => true,
            _ => false,
        }
    }

    /// Everything but the step, the id and the metadata stays.
    pub open spec fn same_item(&self, other: Lookup) -> bool {
        &&& self.key_spec() == other.key_spec()
        &&& self.kind_spec() == other.kind_spec()
        &&& self.title_spec() == other.title_spec()
        &&& self.year_spec() == other.year_spec()
        &&& self.seasons_spec() == other.seasons_spec()
        &&& self.langs_spec() == other.langs_spec()
        &&& self.variants_spec() == other.variants_spec()
    }

    pub open spec fn asks_search(&self, a: Ask, v: int) -> bool {
        &&& a matches Ask::Search(r)
        &&& tmdb::request_is(
            r,
            self.key_spec(),
            tmdb::search_path(self.kind_spec()),
            seq![("query"@, self.variants_spec()[v]@), ("language"@, self.langs_spec()[0]@), ("include_adult"@, "false"@)],
        )
    }

    pub open spec fn asks_details(&self, a: Ask, id: u64, l: int) -> bool {
        &&& a matches Ask::Details(r)
        &&& tmdb::request_is(
            r,
            self.key_spec(),
            tmdb::details_path(self.kind_spec(), id),
            seq![("language"@, self.langs_spec()[l]@), ("append_to_response"@, "credits,keywords"@)],
        )
    }

    pub open spec fn asks_season(&self, a: Ask, i: int, language: Seq<char>) -> bool {
        &&& a matches Ask::Season(r)
        &&& tmdb::request_is(
            r,
            self.key_spec(),
            tmdb::season_path(self.id_spec(), self.seasons_spec()[i]),
            seq![("language"@, language)],
        )
    }

    /// Details are done with metadata `m`: it gets the cache version and, when the provider
    /// gave no title, the parsed one; then come the seasons of a show, else the end.
    pub open spec fn details_done(&self, m: Meta, t: Lookup, a: Ask) -> bool {
        let m2 = Meta {
            version: VERSION,
            title: if m.title@.len() == 0 { self.title_spec() } else { m.title },
            ..m
        };
        &&& t.meta_spec() == m2
        &&& t.id_spec() == self.id_spec()
        &&& if self.kind_spec() == MediaKind::Tv && self.seasons_spec().len() > 0 {
            t.step_spec() == Step::Season(0) && t.asks_season(a, 0, m2.language@)
        } else {
            t.step_spec() == Step::Finished && a is Done
        }
    }

    /// What answering `reply` in state `self` leads to: state `t` and the next thing to do.
    pub open spec fn answered(&self, reply: Reply, t: Lookup, a: Ask) -> bool {
        match (self.step_spec(), reply) {
            (Step::Search(v), Reply::Search(results)) => {
                match tmdb::pick_spec(tmdb::candidates_spec(results@), self.year_spec()) {
                    Some(id) => t.id_spec() == id && t.meta_spec() == self.meta_spec()
                        && t.step_spec() == Step::Details(0) && t.asks_details(a, id, 0),
                    None => if v + 1 < self.variants_spec().len() {
                        t.id_spec() == self.id_spec() && t.meta_spec() == self.meta_spec()
                            && t.step_spec() == Step::Search((v + 1) as usize) && t.asks_search(a, v + 1)
                    } else {
                        t.step_spec() == Step::Finished && a is Done && fallback_meta(
                            t.meta_spec(),
                            self.title_spec()@,
                            self.year_spec(),
                            self.langs_spec()[0]@,
                        )
                    },
                }
            },
            (Step::Details(l), Reply::Details(d)) => {
                if l == 0 {
                    let first = self.langs_spec()[0]@;
                    if d.overview@.len() == 0 && self.langs_spec().len() > 1 {
                        &&& first_details(t.meta_spec(), self.kind_spec(), d, first)
                        &&& t.id_spec() == self.id_spec()
                        &&& t.step_spec() == Step::Details(1)
                        &&& t.asks_details(a, self.id_spec(), 1)
                    } else {
                        exists|base: Meta| first_details(base, self.kind_spec(), d, first) && #[trigger] self.details_done(base, t, a)
                    }
                } else {
                    let alt_title = match self.kind_spec() {
                        MediaKind::Movie => d.title,
                        MediaKind::Tv => d.name,
                    };
                    if d.overview@.len() > 0 {
                        let m = self.meta_spec();
                        self.details_done(
                            Meta {
                                overview: d.overview,
                                title: if m.title@.len() == 0 { alt_title } else { m.title },
                                language: self.langs_spec()[l as int],
                                ..m
                            },
                            t,
                            a,
                        )
                    } else if l + 1 < self.langs_spec().len() {
                        t.id_spec() == self.id_spec() && t.meta_spec() == self.meta_spec()
                            && t.step_spec() == Step::Details((l + 1) as usize)
                            && t.asks_details(a, self.id_spec(), l + 1)
                    } else {
                        self.details_done(self.meta_spec(), t, a)
                    }
                }
            },
            (Step::Season(i), Reply::Season(s)) => {
                let m = self.meta_spec();
                let n = t.meta_spec();
                &&& n == Meta { episodes: n.episodes, ..m }
                &&& forall|k: Seq<char>| #[trigger] crate::meta::episode_title(n.episodes@, k) == match s {
                    Some(sd) => match tmdb::season_title(sd.season_number, sd.episodes@, k) {
                        Some(title) => Some(title),
                        None => crate::meta::episode_title(m.episodes@, k),
                    },
                    None => crate::meta::episode_title(m.episodes@, k),
                }
                &&& t.id_spec() == self.id_spec()
                &&& if i + 1 < self.seasons_spec().len() {
                    t.step_spec() == Step::Season((i + 1) as usize) && t.asks_season(a, i + 1, m.language@)
                } else {
                    t.step_spec() == Step::Finished && a is Done
                }
            },
            _ => false,
        }
    }
}


impl Lookup {
    /// Starts looking an item up: the first request searches its title as parsed, in the first
    /// language.
    pub fn start(client: Client, item: &Item, langs: &Vec<String>) -> (r: (Lookup, Ask))
        ensures
            r.0.wf(),
            r.0.key_spec() == client.key_spec(),
            r.0.kind_spec() == kind_for(item.kind),
            r.0.title_spec() == item.title,
            r.0.year_spec() == item.year,
            r.0.seasons_spec() == season_numbers(item.seasons@),
            tmdb::views(r.0.langs_spec()) == if langs@.len() > 0 { tmdb::views(langs@) } else { seq!["en"@] },
            tmdb::views(r.0.variants_spec()) == variants_spec(item.title@),
            r.0.step_spec() == Step::Search(0),
            r.0.asks_search(r.1, 0),
    {
        let kind = match item.kind {
            Kind::Show => MediaKind::Tv,
            _ => MediaKind::Movie,
        };
        let mut seasons: Vec<u16> = Vec::new();
        let mut i: usize = 0;
        while i < item.seasons.len()
            invariant
                i <= item.seasons@.len(),
                seasons@ == season_numbers(item.seasons@.take(i as int)),
            decreases item.seasons@.len() - i,
        {
            seasons.push(item.seasons[i].number);
            i = i + 1;
            assert(seasons@ =~= season_numbers(item.seasons@.take(i as int)));
        }
        assert(item.seasons@.take(i as int) =~= item.seasons@);
        let mut ls: Vec<String> = Vec::new();
        let mut j: usize = 0;
        while j < langs.len()
            invariant
                j <= langs@.len(),
                ls@ == langs@.take(j as int),
            decreases langs@.len() - j,
        {
            ls.push(langs[j].clone());
            j = j + 1;
            assert(ls@ =~= langs@.take(j as int));
        }
        assert(langs@.take(j as int) =~= langs@);
        if ls.len() == 0 {
            ls.push("en".to_string());
            assert(tmdb::views(ls@) =~= seq!["en"@]);
        }
        let variants = title_variants(item.title.as_str());
        assert(variants@.len() > 0) by {
            assert(tmdb::views(variants@).len() == variants@.len());
        }
        let req = client.search(kind, variants[0].as_str(), ls[0].as_str());
        let lk = Lookup {
            client,
            kind,
            title: item.title.clone(),
            year: item.year,
            seasons,
            langs: ls,
            variants,
            step: Step::Search(0),
            id: 0,
            meta: Meta::default(),
        };
        (lk, Ask::Search(req))
    }

    pub fn is_done(&self) -> (r: bool)
        ensures
            r == (self.step_spec() == Step::Finished),
    {
        match self.step {
            Step::Finished => true,
            _ => false,
        }
    }

    /// The metadata gathered.
    pub fn into_meta(self) -> (m: Meta)
        ensures
            m == self.meta_spec(),
    {
        self.meta
    }

    fn ask_details(&self, id: u64, l: usize) -> (a: Ask)
        requires
            l < self.langs@.len(),
        ensures
            self.asks_details(a, id, l as int),
    {
        Ask::Details(self.client.details(self.kind, id, self.langs[l].as_str()))
    }

    fn ask_season(&self, i: usize) -> (a: Ask)
        requires
            i < self.seasons@.len(),
        ensures
            self.asks_season(a, i as int, self.meta.language@),
    {
        Ask::Season(self.client.season_episodes(self.id, self.seasons[i], self.meta.language.as_str()))
    }

    /// Details are done: version the metadata, fall back to the parsed title, then go on to the
    /// seasons of a show.
    fn finish_details(&mut self) -> (a: Ask)
        requires
            old(self).wf(),
        ensures
            final(self).wf(),
            final(self).same_item(*old(self)),
            old(self).details_done(old(self).meta_spec(), *final(self), a),
    {
        self.meta.version = VERSION;
        if self.meta.title.as_str().is_empty() {
            self.meta.title = self.title.clone();
        }
        if self.kind == MediaKind::Tv && self.seasons.len() > 0 {
            self.step = Step::Season(0);
            self.ask_season(0)
        } else {
            self.step = Step::Finished;
            Ask::Done
        }
    }

    /// Takes the reply to the last request and says what to do next.
    pub fn answer(&mut self, reply: Reply) -> (a: Ask)
        requires
            old(self).wf(),
            old(self).expects(reply),
        ensures
            final(self).wf(),
            final(self).same_item(*old(self)),
            old(self).answered(reply, *final(self), a),
    {
        let ghost s0 = *self;
        match reply {
            Reply::Search(results) => {
                let v = match self.step {
                    Step::Search(v) => v,
                    _ => 0,
                };
                assert(v < self.variants@.len());
                let cands = tmdb::candidates(&results);
                match tmdb::pick(&cands, self.year) {
                    Some(id) => {
                        self.id = id;
                        self.step = Step::Details(0);
                        self.ask_details(id, 0)
                    },
                    None => {
                        if v < self.variants.len() - 1 {
                            self.step = Step::Search(v + 1);
                            Ask::Search(
                                self.client.search(self.kind, self.variants[v + 1].as_str(), self.langs[0].as_str()),
                            )
                        } else {
                            let first = self.langs[0].clone();
                            let mut m = Meta::default();
                            m.version = VERSION;
                            m.title = self.title.clone();
                            m.year = self.year;
                            m.language = first.clone();
                            m.requested = first;
                            m.fetched_at = crate::now();
                            self.meta = m;
                            self.step = Step::Finished;
                            Ask::Done
                        }
                    },
                }
            },
            Reply::Details(d) => {
                let l = match self.step {
                    Step::Details(l) => l,
                    _ => 0,
                };
                assert(l < self.langs@.len());
                if l == 0 {
                    let mut m = tmdb::meta_from_details(self.kind, &d, self.langs[0].as_str());
                    m.requested = self.langs[0].clone();
                    self.meta = m;
                    if d.overview.as_str().is_empty() && self.langs.len() > 1 {
                        self.step = Step::Details(1);
                        self.ask_details(self.id, 1)
                    } else {
                        let ghost base = self.meta;
                        let a = self.finish_details();
                        assert(s0.details_done(base, *self, a));
                        a
                    }
                } else {
                    if !d.overview.as_str().is_empty() {
                        let tmdb::Details { overview, title, name, .. } = d;
                        self.meta.overview = overview;
                        if self.meta.title.as_str().is_empty() {
                            self.meta.title = match self.kind {
                                MediaKind::Movie => title,
                                MediaKind::Tv => name,
                            };
                        }
                        self.meta.language = self.langs[l].clone();
                        self.finish_details()
                    } else if l < self.langs.len() - 1 {
                        self.step = Step::Details(l + 1);
                        self.ask_details(self.id, l + 1)
                    } else {
                        self.finish_details()
                    }
                }
            },
            Reply::Season(s) => {
                let i = match self.step {
                    Step::Season(i) => i,
                    _ => 0,
                };
                assert(i < self.seasons@.len());
                let ghost before = self.meta.episodes@;
                if let Some(sd) = s {
                    let eps = tmdb::episodes_from_season(&sd);
                    crate::meta::merge_episode_titles(&mut self.meta.episodes, &eps);
                    proof {
                        assert forall|k: Seq<char>| #[trigger] crate::meta::episode_title(self.meta.episodes@, k) == match tmdb::season_title(sd.season_number, sd.episodes@, k) {
                            Some(title) => Some(title),
                            None => crate::meta::episode_title(before, k),
                        } by {
                            crate::meta::lemma_last_is_first(eps@, k);
                        }
                    }
                }
                if i < self.seasons.len() - 1 {
                    self.step = Step::Season(i + 1);
                    self.ask_season(i + 1)
                } else {
                    self.step = Step::Finished;
                    Ask::Done
                }
            },
        }
    }
}

} // verus!
