//! Name parsing: the only source of identity for an item.
use crate::text::{
    chars_of, is_whitespace, join, join_chars, string_of, trim, trim_chars, words, words_of,
};
use vstd::prelude::*;

verus! {

#[derive(Debug, Clone, PartialEq, Eq)]
pub enum Parsed {
    Movie { title: String, year: u16 },
    Episode { show: String, season: u16, episode: u16 },
    Flat { title: String },
}

pub enum ParsedSpec {
    Movie { title: Seq<char>, year: u16 },
    Episode { show: Seq<char>, season: u16, episode: u16 },
    Flat { title: Seq<char> },
}

impl vstd::view::View for Parsed {
    type V = ParsedSpec;

    open spec fn view(&self) -> ParsedSpec {
        match self {
            Parsed::Movie { title, year } => ParsedSpec::Movie { title: title@, year: *year },
            Parsed::Episode { show, season, episode } => ParsedSpec::Episode {
                show: show@,
                season: *season,
                episode: *episode,
            },
            Parsed::Flat { title } => ParsedSpec::Flat { title: title@ },
        }
    }
}

/// `<show>[ ._-]S<1-2 digits>[ .]E<1-3 digits>` at the start of the name, case-insensitive.
/// Groups: 1 the show, 2 the season, 3 the episode.
pub const EPISODE_PATTERN: &'static str = r"(?i)^(?P<show>.+?)[\s.\-_]+S(?P<s>\d{1,2})[\s.]?E(?P<e>\d{1,3})";

/// `<title> (<19xx or 20xx>)` at the start of the name. Groups: 1 the title, 2 the year.
pub const PAREN_YEAR_PATTERN: &'static str = r"^(?P<title>.+?)\s*\((?P<year>(?:19|20)\d{2})\)";

/// `<title>[ .]<19xx or 20xx>` followed by a separator or the end. Groups: 1 the title, 2 the year.
pub const SCENE_YEAR_PATTERN: &'static str = r"^(?P<title>.+?)[\s.]+(?P<year>(?:19|20)\d{2})(?:[\s.\[\(]|$)";

/// What the `regex` crate gives for a pattern and a text: `None` when `Regex::new` refuses
/// the pattern or `captures` finds no match, else the capture groups in order (group 0 the
/// whole match), each `None` when it took no part in the match. Its semantics take far more
/// than a few lines to write down.
pub uninterp spec fn spec_regex_captures(pattern: Seq<char>, text: Seq<char>) -> Option<Seq<Option<Seq<char>>>>;

pub open spec fn groups_view(g: Option<Vec<Option<String>>>) -> Option<Seq<Option<Seq<char>>>> {
    match g {
        Some(v) => Some(v@.map_values(|x: Option<String>| match x {
            Some(s) => Some(s@),
            None => None,
        })),
        None => None,
    }
}

/// `Regex::new(pattern)`, then `Regex::captures(text)`, the groups turned into strings.
/// Claimed: the result is the name above applied to the pattern and the text; it depends on
/// them alone.
#[verifier::external_body]
fn regex_captures(pattern: &str, text: &str) -> (r: Option<Vec<Option<String>>>)
    ensures
        groups_view(r) == spec_regex_captures(pattern@, text@),
{
    let re = regex::Regex::new(pattern).ok()?;
    let caps = re.captures(text)?;
    Some(caps.iter().map(|m| m.map(|m| m.as_str().to_string())).collect())
}

/// What `unicode-normalization` gives for a string: its Unicode canonical composition (NFC).
pub uninterp spec fn spec_nfc(s: Seq<char>) -> Seq<char>;

/// Composed form (`UnicodeNormalization::nfc`). macOS hands back decomposed accents; ids,
/// titles and queries use this. Claimed: the result is the name above applied to the
/// argument.
#[verifier::external_body]
pub fn nfc(s: &str) -> (r: String)
    ensures
        r@ == spec_nfc(s@),
{
    unicode_normalization::UnicodeNormalization::nfc(s).collect()
}

// ---------------------------------------------------------------------------------------------

/// Scene names use dots for spaces; ordinary names keep their punctuation. Then runs of
/// white space become one space and the ends are trimmed.
pub open spec fn clean_spec(s: Seq<char>) -> Seq<char> {
    let t = trim(s);
    let dotted = t.contains('.') && !t.contains(' ');
    let u = if dotted {
        t.map_values(|c: char| if c == '.' { ' ' } else { c })
    } else {
        t
    };
    join(words(u), seq![' '])
}

fn has_char(v: &Vec<char>, c: char) -> (r: bool)
    ensures
        r == v@.contains(c),
{
    let mut i: usize = 0;
    while i < v.len()
        invariant
            i <= v@.len(),
            forall|j: int| 0 <= j < i ==> v@[j] != c,
        decreases v@.len() - i,
    {
        if v[i] == c {
            assert(v@[i as int] == c);
            return true;
        }
        i = i + 1;
    }
    false
}

fn clean(s: &str) -> (r: String)
    ensures
        r@ == clean_spec(s@),
{
    let cs = chars_of(s);
    let t = trim_chars(&cs);
    let dotted = has_char(&t, '.') && !has_char(&t, ' ');
    let u: Vec<char> = if dotted {
        let mut u: Vec<char> = Vec::new();
        let mut i: usize = 0;
        while i < t.len()
            invariant
                i <= t@.len(),
                u@ == t@.take(i as int).map_values(|c: char| if c == '.' { ' ' } else { c }),
            decreases t@.len() - i,
        {
            u.push(if t[i] == '.' { ' ' } else { t[i] });
            i = i + 1;
            assert(u@ =~= t@.take(i as int).map_values(|c: char| if c == '.' { ' ' } else { c }));
        }
        assert(t@.take(i as int) =~= t@);
        u
    } else {
        t
    };
    let ws = words_of(&u);
    let r = join_chars(&ws, " ");
    proof {
        reveal_strlit(" ");
        assert(" "@ =~= seq![' ']);
    }
    r
}

/// `str::parse::<u16>`: an optional `+`, then one or more ASCII digits whose value fits.
pub open spec fn digits_value(s: Seq<char>) -> nat
    decreases s.len(),
{
    if s.len() == 0 {
        0
    } else {
        digits_value(s.drop_last()) * 10 + ((s.last() as nat) - 48) as nat
    }
}

pub open spec fn all_digits(s: Seq<char>) -> bool {
    forall|i: int| 0 <= i < s.len() ==> '0' <= #[trigger] s[i] <= '9'
}

pub open spec fn parse_u16_spec(s: Seq<char>) -> Option<u16> {
    let d = if s.len() > 0 && s[0] == '+' { s.drop_first() } else { s };
    if d.len() > 0 && all_digits(d) && digits_value(d) <= 65535 {
        Some(digits_value(d) as u16)
    } else {
        None
    }
}

proof fn lemma_digits_value_mono(s: Seq<char>, k: int)
    requires
        0 <= k <= s.len(),
        all_digits(s),
    ensures
        digits_value(s.take(k)) <= digits_value(s),
    decreases s.len() - k,
{
    if k < s.len() {
        lemma_digits_value_mono(s.drop_last(), k);
        assert(s.drop_last().take(k) =~= s.take(k));
        assert(all_digits(s.drop_last()));
    } else {
        assert(s.take(k) =~= s);
    }
}

/// Parses a decimal `u16` the way `str::parse::<u16>` does.
pub fn parse_u16(s: &str) -> (r: Option<u16>)
    ensures
        r == parse_u16_spec(s@),
{
    let cs = chars_of(s);
    let start: usize = if cs.len() > 0 && cs[0] == '+' { 1 } else { 0 };
    let ghost d = if cs@.len() > 0 && cs@[0] == '+' { cs@.drop_first() } else { cs@ };
    assert(d =~= cs@.skip(start as int));
    if start >= cs.len() {
        return None;
    }
    let mut v: u64 = 0;
    let mut i: usize = start;
    while i < cs.len()
        invariant
            start <= i <= cs@.len(),
            cs@ == s@,
            d == cs@.skip(start as int),
            d == if s@.len() > 0 && s@[0] == '+' { s@.drop_first() } else { s@ },
            all_digits(cs@.subrange(start as int, i as int)),
            v == digits_value(cs@.subrange(start as int, i as int)),
            v <= 65535,
        decreases cs@.len() - i,
    {
        let c = cs[i];
        if !('0' <= c && c <= '9') {
            proof {
                assert(d[i - start] == c);
                assert(!('0' <= d[i - start] <= '9'));
                assert(!all_digits(d));

            }
            return None;
        }
        proof {
            assert(cs@.subrange(start as int, i + 1).drop_last() =~= cs@.subrange(start as int, i as int));
            assert(cs@.subrange(start as int, i + 1).last() == c);
        }
        v = v * 10 + ((c as u32) - 48) as u64;
        i = i + 1;
        assert(all_digits(cs@.subrange(start as int, i as int)));
        assert(v == digits_value(cs@.subrange(start as int, i as int)));
        if v > 65535 {
            proof {
                if all_digits(d) {
                    assert(cs@.subrange(start as int, i as int) =~= d.take(i - start));
                    lemma_digits_value_mono(d, i - start);
                }
            }
            return None;
        }
    }
    assert(cs@.subrange(start as int, i as int) =~= d);
    Some(v as u16)
}

// ---------------------------------------------------------------------------------------------

/// Group `i` of a match, empty when it is missing.
pub open spec fn group(g: Seq<Option<Seq<char>>>, i: int) -> Seq<char> {
    if 0 <= i < g.len() {
        match g[i] {
            Some(s) => s,
            None => seq![],
        }
    } else {
        seq![]
    }
}

pub open spec fn num_or_zero(s: Seq<char>) -> u16 {
    match parse_u16_spec(s) {
        Some(n) => n,
        None => 0,
    }
}

/// How a (composed) stem parses given what the three patterns captured in it: an episode
/// first, then a title with a year in parentheses, then a scene name with a bare year, else a
/// flat item. A number that does not parse counts as 0.
pub open spec fn parsed_spec(
    stem: Seq<char>,
    episode: Option<Seq<Option<Seq<char>>>>,
    paren: Option<Seq<Option<Seq<char>>>>,
    scene: Option<Seq<Option<Seq<char>>>>,
) -> ParsedSpec {
    match episode {
        Some(g) => ParsedSpec::Episode {
            show: clean_spec(group(g, 1)),
            season: num_or_zero(group(g, 2)),
            episode: num_or_zero(group(g, 3)),
        },
        None => match paren {
            Some(g) => ParsedSpec::Movie { title: clean_spec(group(g, 1)), year: num_or_zero(group(g, 2)) },
            None => match scene {
                Some(g) => ParsedSpec::Movie { title: clean_spec(group(g, 1)), year: num_or_zero(group(g, 2)) },
                None => ParsedSpec::Flat { title: clean_spec(stem) },
            },
        },
    }
}

fn group_of(g: &Vec<Option<String>>, i: usize) -> (r: String)
    ensures
        r@ == group(groups_view(Some(*g))->0, i as int),
{
    if i < g.len() {
        match &g[i] {
            Some(s) => s.clone(),
            None => String::new(),
        }
    } else {
        String::new()
    }
}

fn number_of(s: &str) -> (r: u16)
    ensures
        r == num_or_zero(s@),
{
    match parse_u16(s) {
        Some(n) => n,
        None => 0,
    }
}

/// How a (composed) stem parses given what the three patterns captured in it.
pub fn parsed_from(
    stem: &str,
    episode: Option<Vec<Option<String>>>,
    paren: Option<Vec<Option<String>>>,
    scene: Option<Vec<Option<String>>>,
) -> (p: Parsed)
    ensures
        p@ == parsed_spec(stem@, groups_view(episode), groups_view(paren), groups_view(scene)),
{
    match episode {
        Some(g) => {
            let show = group_of(&g, 1);
            let s = group_of(&g, 2);
            let e = group_of(&g, 3);
            Parsed::Episode { show: clean(show.as_str()), season: number_of(s.as_str()), episode: number_of(e.as_str()) }
        },
        None => match paren {
            Some(g) => {
                let t = group_of(&g, 1);
                let y = group_of(&g, 2);
                Parsed::Movie { title: clean(t.as_str()), year: number_of(y.as_str()) }
            },
            None => match scene {
                Some(g) => {
                    let t = group_of(&g, 1);
                    let y = group_of(&g, 2);
                    Parsed::Movie { title: clean(t.as_str()), year: number_of(y.as_str()) }
                },
                None => Parsed::Flat { title: clean(stem) },
            },
        },
    }
}

/// How a file stem parses: composed first, then matched against the episode pattern, the
/// parenthesised year and the scene year, in that order.
pub open spec fn parse_stem_spec(stem: Seq<char>) -> ParsedSpec {
    let s = spec_nfc(stem);
    parsed_spec(
        s,
        spec_regex_captures(EPISODE_PATTERN@, s),
        spec_regex_captures(PAREN_YEAR_PATTERN@, s),
        spec_regex_captures(SCENE_YEAR_PATTERN@, s),
    )
}

/// Parses a file stem (name without extension). macOS file systems hand back decomposed
/// accents (NFD); everything downstream, TMDB included, expects composed text (NFC).
pub fn parse_stem(stem: &str) -> (p: Parsed)
    ensures
        p@ == parse_stem_spec(stem@),
{
    let s = nfc(stem);
    let episode = regex_captures(EPISODE_PATTERN, s.as_str());
    let paren = regex_captures(PAREN_YEAR_PATTERN, s.as_str());
    let scene = regex_captures(SCENE_YEAR_PATTERN, s.as_str());
    parsed_from(s.as_str(), episode, paren, scene)
}

/// Names come out clean: a parsed title or show is its own words joined by single spaces
/// (splitting it on white space and joining with one space gives it back), whatever the
/// patterns captured.
pub proof fn law_parsed_names_are_clean(
    stem: Seq<char>,
    episode: Option<Seq<Option<Seq<char>>>>,
    paren: Option<Seq<Option<Seq<char>>>>,
    scene: Option<Seq<Option<Seq<char>>>>,
)
    ensures
        match parsed_spec(stem, episode, paren, scene) {
            ParsedSpec::Movie { title, .. } => join(words(title), seq![' ']) == title,
            ParsedSpec::Episode { show, .. } => join(words(show), seq![' ']) == show,
            ParsedSpec::Flat { title } => join(words(title), seq![' ']) == title,
        },
{
    match episode {
        Some(g) => lemma_clean_is_stable(group(g, 1)),
        None => match paren {
            Some(g) => lemma_clean_is_stable(group(g, 1)),
            None => match scene {
                Some(g) => lemma_clean_is_stable(group(g, 1)),
                None => lemma_clean_is_stable(stem),
            },
        },
    }
}

proof fn lemma_clean_is_stable(s: Seq<char>)
    ensures
        join(words(clean_spec(s)), seq![' ']) == clean_spec(s),
{
    let t = trim(s);
    let dotted = t.contains('.') && !t.contains(' ');
    let u = if dotted {
        t.map_values(|c: char| if c == '.' { ' ' } else { c })
    } else {
        t
    };
    crate::text::lemma_joined_words_are_stable(u);
}

/// The numbers read from digits of the patterns' shapes stay in their ranges: one or two
/// digits (a season) are at most 99, one to three (an episode) at most 999, and four starting
/// with 19 or 20 (a year) lie in 1900 to 2099.
pub proof fn law_pattern_numbers_stay_in_range(g: Seq<char>)
    requires
        all_digits(g),
    ensures
        1 <= g.len() <= 2 ==> num_or_zero(g) <= 99,
        1 <= g.len() <= 3 ==> num_or_zero(g) <= 999,
        g.len() == 4 && ((g[0] == '1' && g[1] == '9') || (g[0] == '2' && g[1] == '0')) ==> 1900 <= num_or_zero(g)
            <= 2099,
{
    reveal_with_fuel(digits_value, 5);
    if 1 <= g.len() <= 4 {
        assert('0' <= g[0] <= '9');
        assert(g.len() >= 2 ==> '0' <= g[1] <= '9');
        assert(g.len() >= 3 ==> '0' <= g[2] <= '9');
        assert(g.len() >= 4 ==> '0' <= g[3] <= '9');
        if g.len() == 1 {
            assert(g.drop_last() =~= Seq::<char>::empty());
        } else if g.len() == 2 {
            assert(g.drop_last().drop_last() =~= Seq::<char>::empty());
            assert(g.drop_last().last() == g[0]);
        } else if g.len() == 3 {
            assert(g.drop_last().drop_last().drop_last() =~= Seq::<char>::empty());
            assert(g.drop_last().drop_last().last() == g[0]);
            assert(g.drop_last().last() == g[1]);
        } else {
            assert(g.drop_last().drop_last().drop_last().drop_last() =~= Seq::<char>::empty());
            assert(g.drop_last().drop_last().drop_last().last() == g[0]);
            assert(g.drop_last().drop_last().last() == g[1]);
            assert(g.drop_last().last() == g[2]);
        }
    }
}

/// An ordinary name keeps its punctuation: when the trimmed name has a space in it, or has no
/// dot, cleaning only collapses white space, so the result is the name's words (split on
/// white space) joined by one space, every character otherwise unchanged. A scene name (dots
/// and no space) has each dot read as a space first.
pub proof fn law_clean_keeps_ordinary_names(s: Seq<char>)
    ensures
        trim(s).contains(' ') || !trim(s).contains('.') ==> clean_spec(s) == join(words(s), seq![' ']),
        trim(s).contains('.') && !trim(s).contains(' ') ==> clean_spec(s) == join(
            words(s.map_values(|c: char| if c == '.' { ' ' } else { c })),
            seq![' '],
        ),
{
    let t = trim(s);
    if t.contains(' ') || !t.contains('.') {
        crate::text::lemma_words_trim(s);
    } else {
        let f = |c: char| if c == '.' { ' ' } else { c };
        let k = crate::text::lemma_trim_parts(s);
        let a = s.take(k);
        let b = s.skip(k + t.len());
        assert(s =~= a + t + b);
        assert(s.map_values(f) =~= a.map_values(f) + t.map_values(f) + b.map_values(f));
        assert forall|j: int| 0 <= j < a.map_values(f).len() implies crate::text::is_ws(#[trigger] a.map_values(f)[j]) by {
            assert(a[j] == s[j]);
            assert(crate::text::is_ws(s[j]));
        }
        assert forall|j: int| 0 <= j < b.map_values(f).len() implies crate::text::is_ws(#[trigger] b.map_values(f)[j]) by {
            assert(b[j] == s[k + t.len() + j]);
            assert(crate::text::is_ws(s[k + t.len() + j]));
        }
        crate::text::lemma_words_pad(a.map_values(f), t.map_values(f), b.map_values(f));
    }
}

} // verus!

