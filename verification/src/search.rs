//! Matching for the filter line. Case and accent insensitive, because the library mixes
//! French and English titles and nobody types accents on a remote.
use crate::index::Item;
use crate::meta::Meta;
use crate::text::{chars_of, contains, contains_chars, dec, dec_pad, push_char, push_dec, push_str, spec_to_lowercase, string_of, to_lowercase, words, words_of};
use crate::tmdb::views;
use vstd::hash_map::StringHashMap;
use vstd::prelude::*;

verus! {

/// The accent folding applied after lower-casing.
pub open spec fn fold_char(c: char) -> char {
    if c == 'à' || c == 'á' || c == 'â' || c == 'ä' || c == 'ã' || c == 'å' {
        'a'
    } else if c == 'ç' {
        'c'
    } else if c == 'è' || c == 'é' || c == 'ê' || c == 'ë' {
        'e'
    } else if c == 'ì' || c == 'í' || c == 'î' || c == 'ï' {
        'i'
    } else if c == 'ñ' {
        'n'
    } else if c == 'ò' || c == 'ó' || c == 'ô' || c == 'ö' || c == 'õ' {
        'o'
    } else if c == 'ù' || c == 'ú' || c == 'û' || c == 'ü' {
        'u'
    } else if c == 'ý' || c == 'ÿ' {
        'y'
    } else if c == 'œ' {
        'o'
    } else {
        c
    }
}

/// Case and accent insensitive form: lower case, then each accented letter of the table
/// replaced by its base letter.
pub open spec fn folded(s: Seq<char>) -> Seq<char> {
    spec_to_lowercase(s).map_values(|c: char| fold_char(c))
}

fn fold_one(c: char) -> (r: char)
    ensures
        r == fold_char(c),
{
    match c {
        'à' | 'á' | 'â' | 'ä' | 'ã' | 'å' => 'a',
        'ç' => 'c',
        'è' | 'é' | 'ê' | 'ë' => 'e',
        'ì' | 'í' | 'î' | 'ï' => 'i',
        'ñ' => 'n',
        'ò' | 'ó' | 'ô' | 'ö' | 'õ' => 'o',
        'ù' | 'ú' | 'û' | 'ü' => 'u',
        'ý' | 'ÿ' => 'y',
        'œ' => 'o',
        _ => c,
    }
}

/// Accents folded out of text that is already lower case.
pub fn fold_lowered(lower: &str) -> (r: String)
    ensures
        r@ == lower@.map_values(|c: char| fold_char(c)),
{
    let cs = chars_of(lower);
    let mut out: Vec<char> = Vec::new();
    let mut i: usize = 0;
    while i < cs.len()
        invariant
            i <= cs@.len(),
            cs@ == lower@,
            out@ == cs@.take(i as int).map_values(|c: char| fold_char(c)),
        decreases cs@.len() - i,
    {
        out.push(fold_one(cs[i]));
        i = i + 1;
        assert(out@ =~= cs@.take(i as int).map_values(|c: char| fold_char(c)));
    }
    assert(cs@.take(cs@.len() as int) =~= cs@);
    string_of(out.as_slice())
}

/// Case and accent insensitive form for matching.
pub fn fold(s: &str) -> (r: String)
    ensures
        r@ == folded(s@),
{
    let lower = to_lowercase(s);
    fold_lowered(lower.as_str())
}

/// Each piece preceded by one space, concatenated.
pub open spec fn spaced(pieces: Seq<Seq<char>>) -> Seq<char>
    decreases pieces.len(),
{
    if pieces.len() == 0 {
        seq![]
    } else {
        spaced(pieces.drop_last()) + seq![' '] + pieces.last()
    }
}

/// What enrichment brought back that the filter looks at: titles, genres, companies,
/// people and keywords. The overview is left out.
pub open spec fn meta_words(m: Meta) -> Seq<Seq<char>> {
    seq![m.title@, m.original_title@] + views(m.genres@) + views(m.companies@) + views(
        m.people@,
    ) + views(m.keywords@)
}

/// The text an item is matched against: its parsed title and year, then the metadata words,
/// each after a space.
pub open spec fn haystack_of(item: Item, meta: Option<Meta>) -> Seq<char> {
    let base = match item.year {
        Some(y) => item.title@ + seq![' '] + dec(y as nat),
        None => item.title@,
    };
    match meta {
        Some(m) => base + spaced(meta_words(m)),
        None => base,
    }
}

/// Every word of the (already folded) query occurs in the folded haystack.
pub open spec fn matches_spec(item: Item, meta: Option<Meta>, folded_query: Seq<char>) -> bool {
    let hay = folded(haystack_of(item, meta));
    forall|i: int| 0 <= i < words(folded_query).len() ==> contains(hay, #[trigger] words(folded_query)[i])
}

pub open spec fn opt_meta(m: Option<&Meta>) -> Option<Meta> {
    match m {
        Some(x) => Some(*x),
        None => None,
    }
}

fn push_spaced(hay: &mut String, v: &Vec<String>)
    ensures
        final(hay)@ == old(hay)@ + spaced(views(v@)),
{
    let ghost start = hay@;
    let mut i: usize = 0;
    while i < v.len()
        invariant
            i <= v@.len(),
            hay@ == start + spaced(views(v@.take(i as int))),
        decreases v@.len() - i,
    {
        push_char(hay, ' ');
        push_str(hay, v[i].as_str());
        proof {
            assert(views(v@.take(i + 1)).drop_last() =~= views(v@.take(i as int)));
            assert(views(v@.take(i + 1)).last() == v@[i as int]@);
        }
        i = i + 1;
        assert(hay@ =~= start + spaced(views(v@.take(i as int))));
    }
    assert(v@.take(v@.len() as int) =~= v@);
}

proof fn lemma_spaced_append(a: Seq<Seq<char>>, b: Seq<Seq<char>>)
    ensures
        spaced(a + b) == spaced(a) + spaced(b),
    decreases b.len(),
{
    if b.len() == 0 {
        assert(a + b =~= a);
    } else {
        lemma_spaced_append(a, b.drop_last());
        assert((a + b).drop_last() =~= a + b.drop_last());
    }
}

fn haystack(item: &Item, meta: Option<&Meta>) -> (r: String)
    ensures
        r@ == haystack_of(*item, opt_meta(meta)),
{
    let mut hay = item.title.clone();
    if let Some(y) = item.year {
        push_char(&mut hay, ' ');
        push_dec(&mut hay, y as u64, 0);
    }
    if let Some(m) = meta {
        let ghost base = hay@;
        push_char(&mut hay, ' ');
        push_str(&mut hay, m.title.as_str());
        push_char(&mut hay, ' ');
        push_str(&mut hay, m.original_title.as_str());
        push_spaced(&mut hay, &m.genres);
        push_spaced(&mut hay, &m.companies);
        push_spaced(&mut hay, &m.people);
        push_spaced(&mut hay, &m.keywords);
        proof {
            let t = seq![m.title@, m.original_title@];
            assert(spaced(t) =~= seq![' '] + m.title@ + seq![' '] + m.original_title@) by {
                assert(t.drop_last() =~= seq![m.title@]);
                assert(seq![m.title@].drop_last() =~= Seq::<Seq<char>>::empty());
                assert(spaced(Seq::<Seq<char>>::empty()) =~= Seq::<char>::empty());
                assert(spaced(seq![m.title@]) =~= seq![' '] + m.title@);
            }
            let g = views(m.genres@);
            let c = views(m.companies@);
            let p = views(m.people@);
            let k = views(m.keywords@);
            lemma_spaced_append(t, g);
            lemma_spaced_append(t + g, c);
            lemma_spaced_append(t + g + c, p);
            lemma_spaced_append(t + g + c + p, k);
            assert(hay@ =~= base + spaced(meta_words(*m)));
        }
    }
    proof {
        if let Some(y) = item.year {
            assert(dec_pad(y as nat, 0) == dec(y as nat));
        }
    }
    hay
}

/// Every word of the query must appear somewhere in the item's text: parsed title and year,
/// then what enrichment brought back. The overview is left out because common words would
/// match half the library with no visible reason.
pub fn matches(item: &Item, meta: Option<&Meta>, folded_query: &str) -> (r: bool)
    ensures
        r == matches_spec(*item, opt_meta(meta), folded_query@),
{
    let h = haystack(item, meta);
    let hay_s = fold(h.as_str());
    let hay = chars_of(hay_s.as_str());
    let q = chars_of(folded_query);
    let ws = words_of(&q);
    let ghost wv = ws@.map_values(|w: Vec<char>| w@);
    let mut i: usize = 0;
    while i < ws.len()
        invariant
            i <= ws@.len(),
            wv == ws@.map_values(|w: Vec<char>| w@),
            wv == words(folded_query@),
            hay@ == folded(haystack_of(*item, opt_meta(meta))),
            forall|j: int| 0 <= j < i ==> contains(hay@, #[trigger] wv[j]),
        decreases ws@.len() - i,
    {
        assert(wv[i as int] == ws@[i as int]@);
        if !contains_chars(&hay, &ws[i]) {
            return false;
        }
        i = i + 1;
    }
    true
}

/// Indices of the items that match, in item order. An empty query matches everything.
pub open spec fn filter_spec(items: Seq<Item>, meta: Map<Seq<char>, Meta>, query: Seq<char>) -> Seq<usize>
    decreases items.len(),
{
    if items.len() == 0 {
        seq![]
    } else {
        let rest = filter_spec(items.drop_last(), meta, query);
        let it = items.last();
        let m = if meta.contains_key(it.id@) { Some(meta[it.id@]) } else { None };
        let q = folded(query);
        if query.len() == 0 || q.len() == 0 || matches_spec(it, m, q) {
            rest.push((items.len() - 1) as usize)
        } else {
            rest
        }
    }
}

/// Indices of the items that match, in item order. An empty query matches everything.
pub fn filter(items: &[Item], meta: &StringHashMap<Meta>, query: &str) -> (r: Vec<usize>)
    ensures
        r@ == filter_spec(items@, meta@, query@),
{
    let q = fold(query);
    let mut r: Vec<usize> = Vec::new();
    let mut i: usize = 0;
    while i < items.len()
        invariant
            i <= items@.len(),
            q@ == folded(query@),
            r@ == filter_spec(items@.take(i as int), meta@, query@),
        decreases items@.len() - i,
    {
        let it = &items[i];
        let m = meta.get(it.id.as_str());
        proof {
            assert(items@.take(i + 1).drop_last() =~= items@.take(i as int));
            assert(items@.take(i + 1).last() == items@[i as int]);
        }
        if query.is_empty() || q.as_str().is_empty() || matches(it, m, q.as_str()) {
            r.push(i);
        }
        i = i + 1;
    }
    assert(items@.take(items@.len() as int) =~= items@);
    r
}


/// Every word of a query must match: a folded query of two parts separated by a space keeps
/// an item exactly when each part alone keeps it.
pub proof fn law_every_word_must_match(item: Item, meta: Option<Meta>, a: Seq<char>, b: Seq<char>)
    ensures
        matches_spec(item, meta, a + seq![' '] + b) == (matches_spec(item, meta, a) && matches_spec(item, meta, b)),
{
    crate::text::lemma_words_split(a, b);
    let wa = words(a);
    let wb = words(b);
    let w = words(a + seq![' '] + b);
    let hay = folded(haystack_of(item, meta));
    assert(w == wa + wb);
    if matches_spec(item, meta, a + seq![' '] + b) {
        assert forall|i: int| 0 <= i < wa.len() implies contains(hay, #[trigger] wa[i]) by {
            assert(w[i] == wa[i]);
        }
        assert forall|i: int| 0 <= i < wb.len() implies contains(hay, #[trigger] wb[i]) by {
            assert(w[wa.len() + i] == wb[i]);
        }
    }
    if matches_spec(item, meta, a) && matches_spec(item, meta, b) {
        assert forall|i: int| 0 <= i < w.len() implies contains(hay, #[trigger] w[i]) by {
            if i < wa.len() {
                assert(w[i] == wa[i]);
            } else {
                assert(w[i] == wb[i - wa.len()]);
            }
        }
    }
}

/// An empty query keeps every item, in order; so does one that folds to nothing.
pub proof fn law_empty_query_keeps_everything(items: Seq<Item>, meta: Map<Seq<char>, Meta>, query: Seq<char>)
    requires
        query.len() == 0 || folded(query).len() == 0,
        items.len() <= usize::MAX,
    ensures
        filter_spec(items, meta, query).len() == items.len(),
        forall|i: int| 0 <= i < items.len() ==> #[trigger] filter_spec(items, meta, query)[i] == i,
    decreases items.len(),
{
    if items.len() > 0 {
        law_empty_query_keeps_everything(items.drop_last(), meta, query);
        let rest = filter_spec(items.drop_last(), meta, query);
        assert forall|i: int| 0 <= i < items.len() implies #[trigger] filter_spec(items, meta, query)[i] == i by {
            if i < items.len() - 1 {
                assert(filter_spec(items, meta, query)[i] == rest[i]);
            }
        }
    }
}

/// Folding keeps the length of the lower-cased text, and folds every accented letter of the
/// table away: folding the accents of folded text changes nothing.
pub proof fn law_folding_leaves_no_accent(s: Seq<char>)
    ensures
        folded(s).len() == spec_to_lowercase(s).len(),
        forall|i: int| 0 <= i < folded(s).len() ==> fold_char(#[trigger] folded(s)[i]) == folded(s)[i],
        folded(s).map_values(|c: char| fold_char(c)) == folded(s),
{
    assert(folded(s).map_values(|c: char| fold_char(c)) =~= folded(s));
}

} // verus!
