//! The TMDB v3 protocol as far as enrichment needs it: request URLs, picking a search
//! result, and turning a details or season response into metadata.
use crate::meta::Meta;
use vstd::prelude::*;

verus! {

#[derive(Debug, Clone, Copy, PartialEq, Eq, Structural)]
pub enum MediaKind {
    Movie,
    Tv,
}


/// `S02E03`: the key episode titles are stored under.
pub open spec fn episode_key_spec(season: u16, episode: u16) -> Seq<char> {
    seq!['S'] + crate::text::dec_pad(season as nat, 2) + seq!['E'] + crate::text::dec_pad(
        episode as nat,
        2,
    )
}

pub fn episode_key(season: u16, episode: u16) -> (r: String)
    ensures
        r@ == episode_key_spec(season, episode),
{
    let mut s = String::new();
    crate::text::push_char(&mut s, 'S');
    crate::text::push_dec(&mut s, season as u64, 2);
    crate::text::push_char(&mut s, 'E');
    crate::text::push_dec(&mut s, episode as u64, 2);
    assert(s@ =~= episode_key_spec(season, episode));
    s
}


pub const ATTRIBUTION: &'static str = "This product uses the TMDb API but is not endorsed or certified by TMDb.";

pub const BASE: &'static str = "https://api.themoviedb.org/3";

pub const IMAGE: &'static str = "https://image.tmdb.org/t/p/w500";

/// The leading cast is capped so a long ensemble does not drown the search haystack.
pub const CAST_LIMIT: usize = 5;

// ---------------------------------------------------------------------------------------------
// Query encoding

/// Letters, digits and `-_.~` pass through a query value unchanged.
pub open spec fn unreserved(b: u8) -> bool {
    (65 <= b <= 90) || (97 <= b <= 122) || (48 <= b <= 57) || b == 45 || b == 95 || b == 46 || b == 126
}

pub open spec fn encode_byte(b: u8) -> Seq<char> {
    if unreserved(b) {
        seq![b as char]
    } else if b == 32 {
        "%20"@
    } else {
        seq!['%', crate::text::hex_upper((b / 16) as nat), crate::text::hex_upper((b % 16) as nat)]
    }
}

/// Percent-encoding of a byte string, byte by byte.
pub open spec fn encode_bytes(bytes: Seq<u8>) -> Seq<char>
    decreases bytes.len(),
{
    if bytes.len() == 0 {
        seq![]
    } else {
        encode_bytes(bytes.drop_last()) + encode_byte(bytes.last())
    }
}

pub open spec fn encode_spec(s: Seq<char>) -> Seq<char> {
    encode_bytes(vstd::utf8::encode_utf8(s))
}

fn upper_hex_digit(d: u8) -> (c: char)
    requires
        d < 16,
    ensures
        c == crate::text::hex_upper(d as nat),
{
    if d < 10 {
        ((48 + d) as u8) as char
    } else {
        ((55 + d) as u8) as char
    }
}

/// Percent-encodes a query value as UTF-8, keeping unreserved characters.
pub fn encode(s: &str) -> (r: String)
    ensures
        r@ == encode_spec(s@),
{
    let bytes = s.as_bytes();
    let mut out = String::new();
    let mut i: usize = 0;
    while i < bytes.len()
        invariant
            i <= bytes@.len(),
            bytes@ == vstd::utf8::encode_utf8(s@),
            out@ == encode_bytes(bytes@.take(i as int)),
        decreases bytes@.len() - i,
    {
        let b = bytes[i];
        proof {
            assert(bytes@.take(i + 1).drop_last() =~= bytes@.take(i as int));
            assert(bytes@.take(i + 1).last() == b);
        }
        if (65 <= b && b <= 90) || (97 <= b && b <= 122) || (48 <= b && b <= 57) || b == 45 || b == 95
            || b == 46 || b == 126 {
            crate::text::push_char(&mut out, b as char);
        } else if b == 32 {
            crate::text::push_str(&mut out, "%20");
        } else {
            crate::text::push_char(&mut out, '%');
            crate::text::push_char(&mut out, upper_hex_digit(b / 16));
            crate::text::push_char(&mut out, upper_hex_digit(b % 16));
        }
        i = i + 1;
        assert(out@ =~= encode_bytes(bytes@.take(i as int)));
    }
    assert(bytes@.take(i as int) =~= bytes@);
    out
}

// ---------------------------------------------------------------------------------------------
// Search results

/// One search result as the provider sent it: its id when it has one, the release (or first
/// air) date text, the vote count, and its popularity as an order key.
#[derive(Debug, Clone)]
pub struct SearchResult {
    pub id: Option<u64>,
    pub date: String,
    pub votes: u64,
    /// The popularity as an order key: keys compare as the popularities do under
    /// `f64::total_cmp`.
    pub popularity: u64,
}

#[derive(Debug, Clone, Copy, PartialEq, Eq, Structural)]
pub struct Candidate {
    pub id: u64,
    pub year: Option<u16>,
    pub votes: u64,
    /// The popularity as an order key: keys compare as the popularities do under
    /// `f64::total_cmp`.
    pub popularity: u64,
}

/// The year at the front of a date: its first four characters, when they are ASCII and
/// parse as a number (`date.get(..4)` then `parse::<u16>`).
pub open spec fn year_of(date: Seq<char>) -> Option<u16> {
    if date.len() >= 4 && forall|i: int| 0 <= i < 4 ==> (#[trigger] date[i] as u32) < 128 {
        crate::parse::parse_u16_spec(date.take(4))
    } else {
        None
    }
}

pub fn year_from(date: &str) -> (r: Option<u16>)
    ensures
        r == year_of(date@),
{
    let cs = crate::text::chars_of(date);
    if cs.len() < 4 {
        return None;
    }
    let mut i: usize = 0;
    while i < 4
        invariant
            i <= 4,
            cs@.len() >= 4,
            cs@ == date@,
            forall|j: int| 0 <= j < i ==> (#[trigger] cs@[j] as u32) < 128,
        decreases 4 - i,
    {
        if (cs[i] as u32) >= 128 {
            assert(!((date@[i as int] as u32) < 128));
            return None;
        }
        i = i + 1;
    }
    let head = crate::text::string_of(&cs.as_slice()[0..4]);
    assert(head@ =~= date@.take(4));
    crate::parse::parse_u16(head.as_str())
}

pub open spec fn candidate_of(r: SearchResult) -> Option<Candidate> {
    match r.id {
        Some(id) => Some(Candidate { id, year: year_of(r.date@), votes: r.votes, popularity: r.popularity }),
        None => None,
    }
}

/// The results with an id, in order, each with the year read off its date.
pub open spec fn candidates_spec(results: Seq<SearchResult>) -> Seq<Candidate>
    decreases results.len(),
{
    if results.len() == 0 {
        seq![]
    } else {
        let rest = candidates_spec(results.drop_last());
        match candidate_of(results.last()) {
            Some(c) => rest.push(c),
            None => rest,
        }
    }
}

pub fn candidates(results: &Vec<SearchResult>) -> (r: Vec<Candidate>)
    ensures
        r@ == candidates_spec(results@),
{
    let mut out: Vec<Candidate> = Vec::new();
    let mut i: usize = 0;
    while i < results.len()
        invariant
            i <= results@.len(),
            out@ == candidates_spec(results@.take(i as int)),
        decreases results@.len() - i,
    {
        let r = &results[i];
        proof {
            assert(results@.take(i + 1).drop_last() =~= results@.take(i as int));
            assert(results@.take(i + 1).last() == *r);
        }
        if let Some(id) = r.id {
            out.push(Candidate { id, year: year_from(r.date.as_str()), votes: r.votes, popularity: r.popularity });
        }
        i = i + 1;
    }
    assert(results@.take(i as int) =~= results@);
    out
}

// ---------------------------------------------------------------------------------------------
// Picking

/// Within a year of the file's year.
pub open spec fn near_year(c: Candidate, year: u16) -> bool {
    match c.year {
        Some(cy) => -1 <= cy - year <= 1,
        None => false,
    }
}

pub open spec fn near_spec(cands: Seq<Candidate>, year: u16) -> Seq<Candidate> {
    cands.filter(|c: Candidate| near_year(c, year))
}

/// `a` ranks at least as high as `b`: more votes, then more popular.
pub open spec fn ranks_ge(a: Candidate, b: Candidate) -> bool {
    a.votes > b.votes || (a.votes == b.votes && a.popularity >= b.popularity)
}

/// The highest ranked candidate, the last one among equals (`Iterator::max_by`).
pub open spec fn best_spec(cands: Seq<Candidate>) -> Option<Candidate>
    decreases cands.len(),
{
    if cands.len() == 0 {
        None
    } else {
        match best_spec(cands.drop_last()) {
            Some(b) => if ranks_ge(cands.last(), b) { Some(cands.last()) } else { Some(b) },
            None => Some(cands.last()),
        }
    }
}

/// The pool picked from: the candidates within a year of the file's year when there are
/// any, else all of them.
pub open spec fn pool_spec(cands: Seq<Candidate>, year: Option<u16>) -> Seq<Candidate> {
    let near = match year {
        Some(y) => near_spec(cands, y),
        None => seq![],
    };
    if near.len() == 0 {
        cands
    } else {
        near
    }
}

pub open spec fn pick_spec(cands: Seq<Candidate>, year: Option<u16>) -> Option<u64> {
    match best_spec(pool_spec(cands, year)) {
        Some(c) => Some(c.id),
        None => None,
    }
}

fn best(pool: &Vec<Candidate>) -> (r: Option<Candidate>)
    ensures
        r == best_spec(pool@),
{
    let mut b: Option<Candidate> = None;
    let mut i: usize = 0;
    while i < pool.len()
        invariant
            i <= pool@.len(),
            b == best_spec(pool@.take(i as int)),
        decreases pool@.len() - i,
    {
        let c = pool[i];
        proof {
            assert(pool@.take(i + 1).drop_last() =~= pool@.take(i as int));
            assert(pool@.take(i + 1).last() == c);
        }
        b = match b {
            Some(x) => if c.votes > x.votes || (c.votes == x.votes && c.popularity >= x.popularity) {
                Some(c)
            } else {
                Some(x)
            },
            None => Some(c),
        };
        i = i + 1;
    }
    assert(pool@.take(i as int) =~= pool@);
    b
}

/// The best candidate: among those within a year of the file's year when any are, the one with
/// the most votes. Featurettes and making-ofs share the year but never the votes.
pub fn pick(cands: &Vec<Candidate>, year: Option<u16>) -> (r: Option<u64>)
    ensures
        r == pick_spec(cands@, year),
{
    let mut near: Vec<Candidate> = Vec::new();
    if let Some(y) = year {
        let mut i: usize = 0;
        while i < cands.len()
            invariant
                i <= cands@.len(),
                near@ == cands@.take(i as int).filter(|c: Candidate| near_year(c, y)),
            decreases cands@.len() - i,
        {
            let c = cands[i];
            proof {
                assert(cands@.take(i + 1).drop_last() =~= cands@.take(i as int));
                assert(cands@.take(i + 1).last() == c);
                reveal_with_fuel(Seq::filter, 1);
            }
            let keep = match c.year {
                Some(cy) => (cy as i32 - y as i32) >= -1 && (cy as i32 - y as i32) <= 1,
                None => false,
            };
            if keep {
                near.push(c);
            }
            i = i + 1;
        }
        assert(cands@.take(i as int) =~= cands@);
    }
    let b = if near.len() == 0 { best(cands) } else { best(&near) };
    match b {
        Some(c) => Some(c.id),
        None => None,
    }
}


// ---------------------------------------------------------------------------------------------
// Details

/// A details response as the provider sent it, each field read the way the library reads it:
/// a text field that is missing or not text is empty, a list of named things holds the names
/// that are text.
#[derive(Debug, Clone)]
pub struct Details {
    pub id: Option<u64>,
    /// `title`, `original_title`, `release_date`: the movie fields.
    pub title: String,
    pub original_title: String,
    pub release_date: String,
    /// `name`, `original_name`, `first_air_date`: the show fields.
    pub name: String,
    pub original_name: String,
    pub first_air_date: String,
    pub overview: String,
    /// `runtime` as an unsigned number.
    pub runtime: Option<u64>,
    /// The first of `episode_run_time`, as an unsigned number.
    pub episode_run_time: Option<u64>,
    /// `vote_average` in tenths as shown with one decimal, when above zero.
    pub rating: Option<u32>,
    pub genres: Vec<String>,
    pub production_companies: Vec<String>,
    pub networks: Vec<String>,
    pub created_by: Vec<String>,
    /// `(name, job)` of each crew entry, each present when it is text.
    pub crew: Vec<(Option<String>, Option<String>)>,
    pub cast: Vec<String>,
    /// The names under `keywords.keywords`, else under `keywords.results`.
    pub keywords: Vec<String>,
    pub poster_path: Option<String>,
}

pub open spec fn views(v: Seq<String>) -> Seq<Seq<char>> {
    v.map_values(|s: String| s@)
}

/// The crew members whose job is `Director`, in order.
pub open spec fn directors(crew: Seq<(Option<String>, Option<String>)>) -> Seq<Seq<char>>
    decreases crew.len(),
{
    if crew.len() == 0 {
        seq![]
    } else {
        let rest = directors(crew.drop_last());
        let (name, job) = crew.last();
        match (name, job) {
            (Some(n), Some(j)) => if j@ == "Director"@ { rest.push(n@) } else { rest },
            _ => rest,
        }
    }
}

/// Consecutive repeats removed (`Vec::dedup`).
pub open spec fn dedup(s: Seq<Seq<char>>) -> Seq<Seq<char>>
    decreases s.len(),
{
    if s.len() <= 1 {
        s
    } else {
        let rest = dedup(s.drop_last());
        if s.last() == s[s.len() - 2] {
            rest
        } else {
            rest.push(s.last())
        }
    }
}

/// Creators, directors, then the first five of the cast, consecutive repeats removed.
pub open spec fn people_spec(d: Details) -> Seq<Seq<char>> {
    let cast = views(d.cast@);
    let lead = if cast.len() <= 5 { cast } else { cast.take(5) };
    dedup(views(d.created_by@) + directors(d.crew@) + lead)
}

/// The running time: the movie's, or the show's first episode time, cut to 32 bits, when
/// above zero.
pub open spec fn runtime_spec(kind: MediaKind, d: Details) -> Option<u32> {
    let r = match kind {
        MediaKind::Movie => d.runtime,
        MediaKind::Tv => d.episode_run_time,
    };
    match r {
        Some(x) => if x % 0x1_0000_0000 > 0 { Some((x % 0x1_0000_0000) as u32) } else { None },
        None => None,
    }
}

/// The fields a details response fills: title, original title and year from the movie or
/// show fields, companies from production companies then networks, people as `people_spec`,
/// the poster URL under the image base, and the language asked for.
pub open spec fn details_fields(m: Meta, kind: MediaKind, d: Details, language: Seq<char>) -> bool {
    &&& m.tmdb_id == d.id
    &&& m.kind == Some(kind)
    &&& m.title@ == match kind {
        MediaKind::Movie => d.title@,
        MediaKind::Tv => d.name@,
    }
    &&& m.original_title@ == match kind {
        MediaKind::Movie => d.original_title@,
        MediaKind::Tv => d.original_name@,
    }
    &&& m.year == year_of(match kind {
        MediaKind::Movie => d.release_date@,
        MediaKind::Tv => d.first_air_date@,
    })
    &&& m.overview@ == d.overview@
    &&& m.runtime == runtime_spec(kind, d)
    &&& m.rating == d.rating
    &&& views(m.genres@) == views(d.genres@)
    &&& views(m.companies@) == views(d.production_companies@) + views(d.networks@)
    &&& views(m.people@) == people_spec(d)
    &&& views(m.keywords@) == views(d.keywords@)
    &&& match (m.poster_url, d.poster_path) {
        (Some(u), Some(p)) => u@ == IMAGE@ + p@,
        (None, None) => true,
        _ => false,
    }
    &&& m.language@ == language
}

/// What a details response becomes: its fields, with the bookkeeping fields empty, fetched
/// at the given time.
pub open spec fn meta_matches_details(m: Meta, kind: MediaKind, d: Details, language: Seq<char>, fetched_at: u64) -> bool {
    &&& details_fields(m, kind, d, language)
    &&& m.poster_file is None
    &&& m.episodes@.len() == 0
    &&& m.requested@.len() == 0
    &&& m.version == 0
    &&& m.fetched_at == fetched_at
}


pub fn clone_strings(v: &Vec<String>) -> (r: Vec<String>)
    ensures
        views(r@) == views(v@),
{
    let mut r: Vec<String> = Vec::new();
    let mut i: usize = 0;
    while i < v.len()
        invariant
            i <= v@.len(),
            views(r@) == views(v@.take(i as int)),
        decreases v@.len() - i,
    {
        let c = v[i].clone();
        let ghost before = r@;
        r.push(c);
        assert(r@ == before.push(c));
        assert(views(r@) =~= views(before).push(c@));
        i = i + 1;
        assert(views(r@) =~= views(v@.take(i as int)));
    }
    assert(v@.take(i as int) =~= v@);
    r
}

fn push_all(out: &mut Vec<String>, v: &Vec<String>, limit: usize)
    ensures
        views(final(out)@) == views(old(out)@) + if v@.len() <= limit { views(v@) } else { views(v@).take(limit as int) },
{
    let ghost start = views(out@);
    let n = if v.len() <= limit { v.len() } else { limit };
    let mut i: usize = 0;
    while i < n
        invariant
            i <= n,
            n <= v@.len(),
            views(out@) == start + views(v@).take(i as int),
        decreases n - i,
    {
        let c = v[i].clone();
        let ghost before = out@;
        out.push(c);
        assert(out@ == before.push(c));
        assert(views(out@) =~= views(before).push(c@));
        i = i + 1;
        assert(views(out@) =~= start + views(v@).take(i as int));
    }
    proof {
        if v@.len() <= limit {
            assert(views(v@).take(i as int) =~= views(v@));
        }
    }
}

fn directors_of(crew: &Vec<(Option<String>, Option<String>)>) -> (r: Vec<String>)
    ensures
        views(r@) == directors(crew@),
{
    let mut r: Vec<String> = Vec::new();
    let mut i: usize = 0;
    while i < crew.len()
        invariant
            i <= crew@.len(),
            views(r@) == directors(crew@.take(i as int)),
        decreases crew@.len() - i,
    {
        proof {
            assert(crew@.take(i + 1).drop_last() =~= crew@.take(i as int));
            assert(crew@.take(i + 1).last() == crew@[i as int]);
        }
        let (name, job) = &crew[i];
        if let (Some(n), Some(j)) = (name, job) {
            if crate::text::str_eq(j.as_str(), "Director") {
                let ghost before = views(r@);
                r.push(n.clone());
                assert(views(r@) =~= before.push(n@));
            }
        }
        i = i + 1;
    }
    assert(crew@.take(i as int) =~= crew@);
    r
}

fn dedup_strings(v: &Vec<String>) -> (r: Vec<String>)
    ensures
        views(r@) == dedup(views(v@)),
{
    let ghost vs = views(v@);
    let mut r: Vec<String> = Vec::new();
    let mut i: usize = 0;
    while i < v.len()
        invariant
            i <= v@.len(),
            vs == views(v@),
            views(r@) == dedup(vs.take(i as int)),
        decreases v@.len() - i,
    {
        proof {
            assert(vs.take(i + 1).drop_last() =~= vs.take(i as int));
            assert(vs.take(i + 1).last() == v@[i as int]@);
            if i >= 1 {
                assert(vs.take(i + 1)[i - 1] == v@[i - 1]@);
            }
        }
        if i == 0 || v[i] != v[i - 1] {
            let ghost before = views(r@);
            r.push(v[i].clone());
            assert(views(r@) =~= before.push(v@[i as int]@));
        }
        i = i + 1;
    }
    assert(vs.take(i as int) =~= vs);
    r
}

/// What a details response becomes, fetched at the given time.
pub fn meta_from_details_at(kind: MediaKind, d: &Details, language: &str, fetched_at: u64) -> (m: Meta)
    ensures
        meta_matches_details(m, kind, *d, language@, fetched_at),
{
    let (title, original, date) = match kind {
        MediaKind::Movie => (d.title.clone(), d.original_title.clone(), &d.release_date),
        MediaKind::Tv => (d.name.clone(), d.original_name.clone(), &d.first_air_date),
    };
    let r = match kind {
        MediaKind::Movie => d.runtime,
        MediaKind::Tv => d.episode_run_time,
    };
    let runtime: Option<u32> = match r {
        Some(x) => {
            let t = (x % 0x1_0000_0000) as u32;
            if t > 0 { Some(t) } else { None }
        },
        None => None,
    };
    let mut companies = clone_strings(&d.production_companies);
    push_all(&mut companies, &d.networks, d.networks.len());
    let mut all_people = clone_strings(&d.created_by);
    let dirs = directors_of(&d.crew);
    push_all(&mut all_people, &dirs, dirs.len());
    push_all(&mut all_people, &d.cast, CAST_LIMIT);
    let people = dedup_strings(&all_people);
    let poster_url = match &d.poster_path {
        Some(p) => {
            let mut u = IMAGE.to_string();
            crate::text::push_str(&mut u, p.as_str());
            Some(u)
        },
        None => None,
    };
    let m = Meta {
        tmdb_id: d.id,
        kind: Some(kind),
        title,
        original_title: original,
        year: year_from(date.as_str()),
        overview: d.overview.clone(),
        runtime,
        rating: d.rating,
        genres: clone_strings(&d.genres),
        companies,
        people,
        keywords: clone_strings(&d.keywords),
        poster_url,
        poster_file: None,
        episodes: Vec::new(),
        language: language.to_string(),
        requested: String::new(),
        version: 0,
        fetched_at,
    };
    proof {
        assert(views(d.networks@).take(d.networks@.len() as int) =~= views(d.networks@));
        assert(views(dirs@).take(dirs@.len() as int) =~= views(dirs@));
    }
    m
}

/// What a details response becomes, stamped with the time of the call. Nothing is stated of
/// `fetched_at` but that it is the clock's reading.
pub fn meta_from_details(kind: MediaKind, d: &Details, language: &str) -> (m: Meta)
    ensures
        exists|t: u64| meta_matches_details(m, kind, *d, language@, t),
{
    let t = crate::now();
    meta_from_details_at(kind, d, language, t)
}


// ---------------------------------------------------------------------------------------------
// Seasons

/// A season response as the provider sent it, read the way the library reads it: the season
/// number (0 when missing) and each episode's number (0 when missing) and name (empty when
/// missing).
#[derive(Debug, Clone)]
pub struct SeasonDetails {
    pub season_number: u64,
    pub episodes: Vec<(u64, String)>,
}

/// The title a season response gives an episode key: the name of the last named episode whose
/// numbers, cut to 16 bits, make that key.
pub open spec fn season_title(season: u64, eps: Seq<(u64, String)>, key: Seq<char>) -> Option<Seq<char>>
    decreases eps.len(),
{
    if eps.len() == 0 {
        None
    } else {
        let e = eps.last();
        if e.1@.len() > 0 && episode_key_spec(season as u16, e.0 as u16) == key {
            Some(e.1@)
        } else {
            season_title(season, eps.drop_last(), key)
        }
    }
}

/// Episode titles of one season, one entry per key; unnamed episodes are left out.
pub fn episodes_from_season(s: &SeasonDetails) -> (r: Vec<(String, String)>)
    ensures
        crate::meta::unique_keys(r@),
        forall|k: Seq<char>| #[trigger] crate::meta::episode_title(r@, k) == season_title(s.season_number, s.episodes@, k),
{
    let mut m: Vec<(String, String)> = Vec::new();
    let season = s.season_number as u16;
    let mut i: usize = 0;
    while i < s.episodes.len()
        invariant
            i <= s.episodes@.len(),
            season == s.season_number as u16,
            crate::meta::unique_keys(m@),
            forall|k: Seq<char>| #[trigger] crate::meta::episode_title(m@, k) == season_title(
                s.season_number,
                s.episodes@.take(i as int),
                k,
            ),
        decreases s.episodes@.len() - i,
    {
        let (n, name) = &s.episodes[i];
        proof {
            assert(s.episodes@.take(i + 1).drop_last() =~= s.episodes@.take(i as int));
            assert(s.episodes@.take(i + 1).last() == s.episodes@[i as int]);
        }
        if !name.as_str().is_empty() {
            let key = episode_key(season, *n as u16);
            crate::meta::set_episode_title(&mut m, key, name.clone());
        }
        i = i + 1;
    }
    assert(s.episodes@.take(i as int) =~= s.episodes@);
    m
}


// ---------------------------------------------------------------------------------------------
// Requests

/// The provider's credential. Requests are built from it; sending them is the caller's part.
#[derive(Debug, Clone)]
pub struct Client {
    key: String,
}

/// One GET request: the full URL, and the `Authorization` header value when one is sent.
#[derive(Debug, Clone)]
pub struct Request {
    pub url: String,
    pub authorization: Option<String>,
}

/// A v4 read access token is a JWT, which starts with `eyJ`; a v3 key is a short hex string.
pub open spec fn bearer_key(key: Seq<char>) -> bool {
    key.len() >= 3 && key[0] == 'e' && key[1] == 'y' && key[2] == 'J'
}

/// `name=value`, the value percent-encoded.
pub open spec fn param_text(p: (Seq<char>, Seq<char>)) -> Seq<char> {
    p.0 + seq!['='] + encode_spec(p.1)
}

/// The query parameters sent: those asked for, then the key as `api_key` unless it goes in a
/// header.
pub open spec fn sent_params(key: Seq<char>, params: Seq<(Seq<char>, Seq<char>)>) -> Seq<(Seq<char>, Seq<char>)> {
    if bearer_key(key) {
        params
    } else {
        params.push(("api_key"@, key))
    }
}

pub open spec fn request_url(key: Seq<char>, path: Seq<char>, params: Seq<(Seq<char>, Seq<char>)>) -> Seq<char> {
    BASE@ + path + seq!['?'] + crate::text::join(
        sent_params(key, params).map_values(|p: (Seq<char>, Seq<char>)| param_text(p)),
        seq!['&'],
    )
}

pub open spec fn request_auth(key: Seq<char>) -> Option<Seq<char>> {
    if bearer_key(key) {
        Some("Bearer "@ + key)
    } else {
        None
    }
}

pub open spec fn auth_view(a: Option<String>) -> Option<Seq<char>> {
    match a {
        Some(s) => Some(s@),
        None => None,
    }
}

/// The request for `path` with these parameters, sent with this key.
pub open spec fn request_is(r: Request, key: Seq<char>, path: Seq<char>, params: Seq<(Seq<char>, Seq<char>)>) -> bool {
    r.url@ == request_url(key, path, params) && auth_view(r.authorization) == request_auth(key)
}

pub open spec fn search_path(kind: MediaKind) -> Seq<char> {
    match kind {
        MediaKind::Movie => "/search/movie"@,
        MediaKind::Tv => "/search/tv"@,
    }
}

pub open spec fn details_path(kind: MediaKind, id: u64) -> Seq<char> {
    match kind {
        MediaKind::Movie => "/movie/"@ + crate::text::dec(id as nat),
        MediaKind::Tv => "/tv/"@ + crate::text::dec(id as nat),
    }
}

pub open spec fn season_path(id: u64, season: u16) -> Seq<char> {
    "/tv/"@ + crate::text::dec(id as nat) + "/season/"@ + crate::text::dec(season as nat)
}

fn is_bearer(key: &str) -> (r: bool)
    ensures
        r == bearer_key(key@),
{
    let cs = crate::text::chars_of(key);
    cs.len() >= 3 && cs[0] == 'e' && cs[1] == 'y' && cs[2] == 'J'
}

fn push_param(url: &mut String, name: &str, value: &str)
    ensures
        final(url)@ == old(url)@ + param_text((name@, value@)),
{
    crate::text::push_str(url, name);
    crate::text::push_char(url, '=');
    let e = encode(value);
    crate::text::push_str(url, e.as_str());
}

impl Client {
    pub closed spec fn key_spec(&self) -> Seq<char> {
        self.key@
    }

    pub fn new(key: String) -> (c: Client)
        ensures
            c.key_spec() == key@,
    {
        Client { key }
    }

    /// The GET request for `path` with these query parameters. Query strings are encoded
    /// here so non-ASCII titles reach the provider as UTF-8. A v4 token goes in a bearer
    /// header, a v3 key in the query.
    fn get(&self, path: &str, params: &Vec<(&str, &str)>) -> (r: Request)
        ensures
            request_is(r, self.key_spec(), path@, params@.map_values(|p: (&str, &str)| (p.0@, p.1@))),
    {
        let ghost key = self.key@;
        let ghost pv = params@.map_values(|p: (&str, &str)| (p.0@, p.1@));
        let ghost texts = sent_params(key, pv).map_values(|p: (Seq<char>, Seq<char>)| param_text(p));
        let bearer = is_bearer(self.key.as_str());
        let mut url = BASE.to_string();
        crate::text::push_str(&mut url, path);
        crate::text::push_char(&mut url, '?');
        let ghost start = url@;
        assert(start =~= BASE@ + path@ + seq!['?']);
        let mut i: usize = 0;
        while i < params.len()
            invariant
                i <= params@.len(),
                pv == params@.map_values(|p: (&str, &str)| (p.0@, p.1@)),
                url@ == start + crate::text::join(
                    pv.take(i as int).map_values(|p: (Seq<char>, Seq<char>)| param_text(p)),
                    seq!['&'],
                ),
            decreases params@.len() - i,
        {
            let ghost before = pv.take(i as int).map_values(|p: (Seq<char>, Seq<char>)| param_text(p));
            let ghost after = pv.take(i + 1).map_values(|p: (Seq<char>, Seq<char>)| param_text(p));
            proof {
                assert(after.drop_last() =~= before);
                assert(after.last() == param_text(pv[i as int]));
            }
            if i > 0 {
                crate::text::push_char(&mut url, '&');
            }
            let (k, v) = params[i];
            push_param(&mut url, k, v);
            proof {
                if i == 0 {
                    assert(crate::text::join(after, seq!['&']) == after[0]);
                }
                assert(url@ =~= start + crate::text::join(after, seq!['&']));
            }
            i = i + 1;
        }
        assert(pv.take(i as int) =~= pv);
        let mut authorization: Option<String> = None;
        if !bearer {
            let ghost all = pv.push(("api_key"@, key)).map_values(|p: (Seq<char>, Seq<char>)| param_text(p));
            let ghost some = pv.map_values(|p: (Seq<char>, Seq<char>)| param_text(p));
            proof {
                assert(all.drop_last() =~= some);
                assert(all.last() == param_text(("api_key"@, key)));
            }
            if params.len() > 0 {
                crate::text::push_char(&mut url, '&');
            }
            push_param(&mut url, "api_key", self.key.as_str());
            proof {
                if pv.len() == 0 {
                    assert(crate::text::join(all, seq!['&']) == all[0]);
                }
                assert(url@ =~= start + crate::text::join(all, seq!['&']));
            }
        } else {
            let mut h = "Bearer ".to_string();
            crate::text::push_str(&mut h, self.key.as_str());
            authorization = Some(h);
            assert(url@ =~= start + crate::text::join(texts, seq!['&']));
        }
        assert(url@ == request_url(key, path@, pv));
        Request { url, authorization }
    }

    /// The request that searches candidates for a title. The year is not sent as a filter;
    /// `pick` uses it to rank the reply.
    pub fn search(&self, kind: MediaKind, title: &str, language: &str) -> (r: Request)
        ensures
            request_is(
                r,
                self.key_spec(),
                search_path(kind),
                seq![("query"@, title@), ("language"@, language@), ("include_adult"@, "false"@)],
            ),
    {
        let params: Vec<(&str, &str)> = vec![("query", title), ("language", language), ("include_adult", "false")];
        let path = match kind {
            MediaKind::Movie => "/search/movie",
            MediaKind::Tv => "/search/tv",
        };
        let r = self.get(path, &params);
        assert(params@.map_values(|p: (&str, &str)| (p.0@, p.1@)) =~= seq![
            ("query"@, title@),
            ("language"@, language@),
            ("include_adult"@, "false"@),
        ]);
        r
    }

    /// The request for details with credits and keywords appended, so one call fills
    /// everything search reads.
    pub fn details(&self, kind: MediaKind, id: u64, language: &str) -> (r: Request)
        ensures
            request_is(
                r,
                self.key_spec(),
                details_path(kind, id),
                seq![("language"@, language@), ("append_to_response"@, "credits,keywords"@)],
            ),
    {
        let mut path = match kind {
            MediaKind::Movie => "/movie/".to_string(),
            MediaKind::Tv => "/tv/".to_string(),
        };
        let n = crate::text::dec_string(id);
        crate::text::push_str(&mut path, n.as_str());
        let params: Vec<(&str, &str)> = vec![("language", language), ("append_to_response", "credits,keywords")];
        let r = self.get(path.as_str(), &params);
        assert(params@.map_values(|p: (&str, &str)| (p.0@, p.1@)) =~= seq![
            ("language"@, language@),
            ("append_to_response"@, "credits,keywords"@),
        ]);
        r
    }

    /// The request for one season's episode titles; its reply becomes titles through
    /// `episodes_from_season`.
    pub fn season_episodes(&self, id: u64, season: u16, language: &str) -> (r: Request)
        ensures
            request_is(r, self.key_spec(), season_path(id, season), seq![("language"@, language@)]),
    {
        let mut path = "/tv/".to_string();
        let n = crate::text::dec_string(id);
        crate::text::push_str(&mut path, n.as_str());
        crate::text::push_str(&mut path, "/season/");
        let m = crate::text::dec_string(season as u64);
        crate::text::push_str(&mut path, m.as_str());
        let params: Vec<(&str, &str)> = vec![("language", language)];
        let r = self.get(path.as_str(), &params);
        assert(params@.map_values(|p: (&str, &str)| (p.0@, p.1@)) =~= seq![("language"@, language@)]);
        r
    }
}


/// A credential source's text, trimmed, when something is left.
pub open spec fn non_empty(s: Option<Seq<char>>) -> Option<Seq<char>> {
    match s {
        Some(x) => if crate::text::trim(x).len() > 0 {
            Some(crate::text::trim(x))
        } else {
            None
        },
        None => None,
    }
}

fn non_empty_of(s: Option<&str>) -> (r: Option<String>)
    ensures
        crate::config::string_opt_view(r) == non_empty(crate::config::opt_view(s)),
{
    match s {
        Some(x) => {
            let t = crate::text::trim_str(x);
            if t.as_str().is_empty() {
                None
            } else {
                Some(t)
            }
        },
        None => None,
    }
}

/// The provider credential: the read access token from the environment, then the key from
/// the environment, then the key file's text. Empty values count as absent; the one taken is
/// trimmed.
pub fn credential(token: Option<&str>, key: Option<&str>, key_file: Option<&str>) -> (r: Option<String>)
    ensures
        crate::config::string_opt_view(r) == match non_empty(crate::config::opt_view(token)) {
            Some(t) => Some(t),
            None => match non_empty(crate::config::opt_view(key)) {
                Some(k) => Some(k),
                None => non_empty(crate::config::opt_view(key_file)),
            },
        },
{
    match non_empty_of(token) {
        Some(t) => Some(t),
        None => match non_empty_of(key) {
            Some(k) => Some(k),
            None => non_empty_of(key_file),
        },
    }
}


/// A character that may stand in a query value as it is: unreserved, a `%` or an upper-case
/// hex digit of an escape.
pub open spec fn query_safe(c: char) -> bool {
    ('A' <= c <= 'Z') || ('a' <= c <= 'z') || ('0' <= c <= '9') || c == '-' || c == '_' || c == '.' || c == '~'
        || c == '%'
}

proof fn lemma_encode_bytes_safe(bytes: Seq<u8>)
    ensures
        forall|i: int| 0 <= i < encode_bytes(bytes).len() ==> query_safe(#[trigger] encode_bytes(bytes)[i]),
    decreases bytes.len(),
{
    if bytes.len() > 0 {
        lemma_encode_bytes_safe(bytes.drop_last());
        let b = bytes.last();
        let rest = encode_bytes(bytes.drop_last());
        let e = encode_byte(b);
        assert forall|i: int| 0 <= i < e.len() implies query_safe(#[trigger] e[i]) by {
            reveal_strlit("%20");
            if !unreserved(b) && b != 32 {
                assert(b / 16 < 16);
                assert(b % 16 < 16);
            }
        }
        assert forall|i: int| 0 <= i < encode_bytes(bytes).len() implies query_safe(#[trigger] encode_bytes(bytes)[i]) by {
            if i < rest.len() {
                assert(encode_bytes(bytes)[i] == rest[i]);
            } else {
                assert(encode_bytes(bytes)[i] == e[i - rest.len()]);
            }
        }
    }
}

/// Encoding makes any text safe in a query: only unreserved characters, `%` and hex digits.
pub proof fn law_encoding_is_query_safe(s: Seq<char>)
    ensures
        forall|i: int| 0 <= i < encode_spec(s).len() ==> query_safe(#[trigger] encode_spec(s)[i]),
{
    lemma_encode_bytes_safe(vstd::utf8::encode_utf8(s));
}

proof fn lemma_best_is_best(s: Seq<Candidate>)
    ensures
        best_spec(s) is None <==> s.len() == 0,
        best_spec(s) matches Some(b) ==> s.contains(b) && forall|j: int| 0 <= j < s.len() ==> ranks_ge(b, #[trigger] s[j]),
    decreases s.len(),
{
    if s.len() > 0 {
        lemma_best_is_best(s.drop_last());
        match best_spec(s.drop_last()) {
            Some(b) => {
                let w = choose|w: int| 0 <= w < s.drop_last().len() && s.drop_last()[w] == b;
                assert(s[w] == b);
                if ranks_ge(s.last(), b) {
                    assert(s[s.len() - 1] == s.last());
                    assert forall|j: int| 0 <= j < s.len() implies ranks_ge(s.last(), #[trigger] s[j]) by {
                        if j < s.len() - 1 {
                            assert(s[j] == s.drop_last()[j]);
                        }
                    }
                } else {
                    assert forall|j: int| 0 <= j < s.len() implies ranks_ge(b, #[trigger] s[j]) by {
                        if j < s.len() - 1 {
                            assert(s[j] == s.drop_last()[j]);
                        }
                    }
                }
            },
            None => {
                assert(s[0] == s.last());
            },
        }
    }
}

/// The pick is the best ranked candidate of its pool (the candidates within a year of the
/// file's year when there are any, else all): none has more votes, or as many and more
/// popularity. Something is picked whenever there is a candidate.
pub proof fn law_the_pick_is_the_best_ranked(cands: Seq<Candidate>, year: Option<u16>)
    ensures
        pick_spec(cands, year) is None <==> cands.len() == 0,
        pick_spec(cands, year) matches Some(id) ==> exists|k: int| {
            &&& 0 <= k < pool_spec(cands, year).len()
            &&& #[trigger] pool_spec(cands, year)[k].id == id
            &&& forall|j: int| 0 <= j < pool_spec(cands, year).len() ==> ranks_ge(
                pool_spec(cands, year)[k],
                #[trigger] pool_spec(cands, year)[j],
            )
        },
{
    let pool = pool_spec(cands, year);
    lemma_best_is_best(pool);
    if let Some(b) = best_spec(pool) {
        let k = choose|k: int| 0 <= k < pool.len() && pool[k] == b;
        assert(pool[k].id == b.id);
    }
}

/// `c` came out within a year of the file's year (never when the file has no year).
pub open spec fn within_a_year(c: Candidate, year: Option<u16>) -> bool {
    match (year, c.year) {
        (Some(y), Some(cy)) => y - 1 <= cy && cy <= y + 1,
        _ => false,
    }
}

/// The pick has the most votes: it is one of the candidates; when some candidate came out
/// within a year of the file's year, it is one of those; and no candidate it was chosen
/// among has more votes than it, nor as many votes and a higher popularity. Popularity only
/// breaks ties between equal vote counts.
pub proof fn law_the_pick_has_the_most_votes(cands: Seq<Candidate>, year: Option<u16>)
    ensures
        pick_spec(cands, year) matches Some(id) ==> exists|k: int|
            {
                &&& 0 <= k < cands.len()
                &&& #[trigger] cands[k].id == id
                &&& ((exists|i: int| 0 <= i < cands.len() && within_a_year(#[trigger] cands[i], year)) ==> within_a_year(
                    cands[k],
                    year,
                ))
                &&& forall|j: int|
                    0 <= j < cands.len() && ((exists|i: int|
                        0 <= i < cands.len() && within_a_year(#[trigger] cands[i], year)) ==> within_a_year(
                        cands[j],
                        year,
                    )) ==> #[trigger] cands[j].votes <= cands[k].votes && (cands[j].votes == cands[k].votes
                        ==> cands[j].popularity <= cands[k].popularity)
            },
{
    broadcast use vstd::seq_lib::group_filter_ensures;
    let pool = pool_spec(cands, year);
    lemma_best_is_best(pool);
    let pred = |c: Candidate| near_year(c, year.unwrap());
    let any_near = exists|i: int| 0 <= i < cands.len() && within_a_year(#[trigger] cands[i], year);
    assert forall|c: Candidate| year is Some ==> (#[trigger] within_a_year(c, year) <==> pred(c)) by {}
    if let Some(b) = best_spec(pool) {
        let near_nonempty = year is Some && near_spec(cands, year.unwrap()).len() > 0;
        if near_nonempty {
            let y = year.unwrap();
            assert(pool == cands.filter(pred));
            cands.lemma_filter_contains_rev(pred, b);
            let w = choose|w: int| 0 <= w < pool.len() && pool[w] == b;
            assert(pred(pool[w]));
            let k = choose|k: int| 0 <= k < cands.len() && cands[k] == b;
            assert(within_a_year(cands[k], year));
            assert forall|j: int|
                0 <= j < cands.len() && (any_near ==> within_a_year(cands[j], year)) implies #[trigger] cands[j].votes
                <= cands[k].votes && (cands[j].votes == cands[k].votes ==> cands[j].popularity <= cands[k].popularity) by {
                assert(within_a_year(cands[k], year));
                assert(any_near);
                assert(pred(cands[j]));
                assert(pool.contains(cands[j]));
                let m = choose|m: int| 0 <= m < pool.len() && pool[m] == cands[j];
                assert(ranks_ge(b, pool[m]));
            }
        } else {
            assert(pool == cands);
            let k = choose|k: int| 0 <= k < cands.len() && cands[k] == b;
            assert(!any_near) by {
                if any_near {
                    let i = choose|i: int| 0 <= i < cands.len() && within_a_year(#[trigger] cands[i], year);
                    assert(pred(cands[i]));
                    assert(cands.filter(pred).contains(cands[i]));
                }
            }
            assert forall|j: int| 0 <= j < cands.len() implies #[trigger] cands[j].votes <= cands[k].votes && (
            cands[j].votes == cands[k].votes ==> cands[j].popularity <= cands[k].popularity) by {
                assert(ranks_ge(b, pool[j]));
            }
        }
    }
}

} // verus!

