//! Text primitives the rest of the library is written in: characters, whitespace, words,
//! decimal and hexadecimal digits. Each comes with the spec function it computes.
use vstd::prelude::*;

verus! {

/// The Unicode `White_Space` property, the set `char::is_whitespace`, `str::trim` and
/// `str::split_whitespace` go by.
pub open spec fn is_ws(c: char) -> bool {
    let n = c as u32;
    ||| 0x09 <= n <= 0x0d
    ||| n == 0x20
    ||| n == 0x85
    ||| n == 0xa0
    ||| n == 0x1680
    ||| 0x2000 <= n <= 0x200a
    ||| n == 0x2028
    ||| n == 0x2029
    ||| n == 0x202f
    ||| n == 0x205f
    ||| n == 0x3000
}

pub fn is_whitespace(c: char) -> (r: bool)
    ensures
        r == is_ws(c),
{
    let n = c as u32;
    (0x09 <= n && n <= 0x0d) || n == 0x20 || n == 0x85 || n == 0xa0 || n == 0x1680 || (0x2000 <= n
        && n <= 0x200a) || n == 0x2028 || n == 0x2029 || n == 0x202f || n == 0x205f || n == 0x3000
}

/// Appends one character (`String::push`).
#[verifier::external_body]
pub(crate) fn push_char(s: &mut String, c: char)
    ensures
        final(s)@ == old(s)@.push(c),
{
    s.push(c);
}

/// Appends a string slice (`String::push_str`, through vstd's `append`).
pub(crate) fn push_str(s: &mut String, t: &str)
    ensures
        final(s)@ == old(s)@ + t@,
{
    s.append(t);
}

/// The characters of a string slice, in order.
pub fn chars_of(s: &str) -> (v: Vec<char>)
    ensures
        v@ == s@,
{
    let mut v: Vec<char> = Vec::new();
    for c in it: s.chars()
        invariant
            v@ == it.seq().take(it.index() as int),
            it.seq() == s@,
    {
        v.push(c);
    }
    v
}

/// A string holding exactly the given characters.
pub fn string_of(v: &[char]) -> (s: String)
    ensures
        s@ == v@,
{
    let mut s = String::new();
    let mut i: usize = 0;
    while i < v.len()
        invariant
            i <= v@.len(),
            s@ == v@.take(i as int),
        decreases v@.len() - i,
    {
        push_char(&mut s, v[i]);
        i = i + 1;
        assert(s@ =~= v@.take(i as int));
    }
    assert(v@.take(v@.len() as int) =~= v@);
    s
}

pub open spec fn trim_start(s: Seq<char>) -> Seq<char>
    decreases s.len(),
{
    if s.len() > 0 && is_ws(s[0]) {
        trim_start(s.drop_first())
    } else {
        s
    }
}

pub open spec fn trim_end(s: Seq<char>) -> Seq<char>
    decreases s.len(),
{
    if s.len() > 0 && is_ws(s.last()) {
        trim_end(s.drop_last())
    } else {
        s
    }
}

/// `str::trim`: leading and trailing white space removed.
pub open spec fn trim(s: Seq<char>) -> Seq<char> {
    trim_end(trim_start(s))
}

proof fn lemma_trim_start_skip(s: Seq<char>, i: int)
    requires
        0 <= i <= s.len(),
        forall|j: int| 0 <= j < i ==> is_ws(#[trigger] s[j]),
    ensures
        trim_start(s) == trim_start(s.skip(i)),
    decreases i,
{
    if i > 0 {
        assert(s.skip(1) =~= s.drop_first());
        lemma_trim_start_skip(s.drop_first(), i - 1);
        assert(s.drop_first().skip(i - 1) =~= s.skip(i));
    } else {
        assert(s.skip(0) =~= s);
    }
}

proof fn lemma_trim_end_take(s: Seq<char>, k: int)
    requires
        0 <= k <= s.len(),
        forall|j: int| k <= j < s.len() ==> is_ws(#[trigger] s[j]),
    ensures
        trim_end(s) == trim_end(s.take(k)),
    decreases s.len() - k,
{
    if k < s.len() {
        lemma_trim_end_take(s.drop_last(), k);
        assert(s.drop_last().take(k) =~= s.take(k));
    } else {
        assert(s.take(k) =~= s);
    }
}

/// `str::trim` on a character sequence.
pub fn trim_chars(s: &Vec<char>) -> (r: Vec<char>)
    ensures
        r@ == trim(s@),
{
    let n = s.len();
    let mut i: usize = 0;
    while i < n && is_whitespace(s[i])
        invariant
            n == s@.len(),
            i <= n,
            forall|j: int| 0 <= j < i ==> is_ws(#[trigger] s@[j]),
        decreases n - i,
    {
        i = i + 1;
    }
    proof {
        lemma_trim_start_skip(s@, i as int);
    }
    let ghost t = s@.skip(i as int);
    assert(trim_start(t) == t) by {
        if t.len() > 0 {
            assert(t[0] == s@[i as int]);
        }
    }
    let mut k: usize = n;
    while k > i && is_whitespace(s[k - 1])
        invariant
            i <= k <= n,
            n == s@.len(),
            forall|j: int| k <= j < n ==> is_ws(#[trigger] s@[j]),
        decreases k,
    {
        k = k - 1;
    }
    let mut r: Vec<char> = Vec::new();
    let mut j: usize = i;
    while j < k
        invariant
            i <= j <= k <= n,
            n == s@.len(),
            r@ == s@.subrange(i as int, j as int),
        decreases k - j,
    {
        r.push(s[j]);
        j = j + 1;
        assert(r@ =~= s@.subrange(i as int, j as int));
    }
    proof {
        let k_rel = (k - i) as int;
        assert forall|j: int| k_rel <= j < t.len() implies is_ws(#[trigger] t[j]) by {
            assert(t[j] == s@[j + i]);
        }
        lemma_trim_end_take(t, k_rel);
        assert(t.take(k_rel) =~= r@);
        if r@.len() > 0 {
            assert(r@.last() == s@[k - 1]);
        }
        assert(trim_end(r@) == r@);
    }
    r
}

/// Length of the run of non-white-space characters at the front.
pub open spec fn run_len(s: Seq<char>) -> nat
    decreases s.len(),
{
    if s.len() == 0 || is_ws(s[0]) {
        0
    } else {
        1 + run_len(s.drop_first())
    }
}

/// `str::split_whitespace`: the maximal runs of non-white-space characters, in order.
pub open spec fn words(s: Seq<char>) -> Seq<Seq<char>>
    decreases s.len(),
{
    if s.len() == 0 {
        seq![]
    } else if is_ws(s[0]) {
        words(s.drop_first())
    } else {
        let n = run_len(s);
        if 0 < n <= s.len() {
            seq![s.take(n as int)] + words(s.skip(n as int))
        } else {
            seq![]
        }
    }
}

proof fn lemma_run_len_le(s: Seq<char>)
    ensures
        run_len(s) <= s.len(),
    decreases s.len(),
{
    if s.len() > 0 && !is_ws(s[0]) {
        lemma_run_len_le(s.drop_first());
    }
}

proof fn lemma_run_len_exact(s: Seq<char>, n: int)
    requires
        0 <= n <= s.len(),
        forall|j: int| 0 <= j < n ==> !is_ws(#[trigger] s[j]),
        n == s.len() || is_ws(s[n]),
    ensures
        run_len(s) == n,
    decreases n,
{
    if n > 0 {
        lemma_run_len_exact(s.drop_first(), n - 1);
    }
}

proof fn lemma_words_ws(s: Seq<char>, i: int)
    requires
        0 <= i < s.len(),
        is_ws(s[i]),
    ensures
        words(s.skip(i)) == words(s.skip(i + 1)),
{
    assert(s.skip(i).drop_first() =~= s.skip(i + 1));
}

proof fn lemma_words_run(s: Seq<char>, i: int, k: int)
    requires
        0 <= i < k <= s.len(),
        forall|j: int| i <= j < k ==> !is_ws(#[trigger] s[j]),
        k == s.len() || is_ws(s[k]),
    ensures
        words(s.skip(i)) == seq![s.subrange(i, k)] + words(s.skip(k)),
{
    let t = s.skip(i);
    assert forall|j: int| 0 <= j < k - i implies !is_ws(#[trigger] t[j]) by {
        assert(t[j] == s[i + j]);
    }
    if k < s.len() {
        assert(t[k - i] == s[k]);
    }
    lemma_run_len_exact(t, k - i);
    assert(t.take(k - i) =~= s.subrange(i, k));
    assert(t.skip(k - i) =~= s.skip(k));
}

/// `str::split_whitespace` on a character sequence.
pub fn words_of(s: &Vec<char>) -> (r: Vec<Vec<char>>)
    ensures
        r@.map_values(|w: Vec<char>| w@) == words(s@),
{
    let n = s.len();
    let mut r: Vec<Vec<char>> = Vec::new();
    let mut i: usize = 0;
    assert(s@.skip(0) =~= s@);
    while i < n
        invariant
            i <= n,
            n == s@.len(),
            r@.map_values(|w: Vec<char>| w@) + words(s@.skip(i as int)) == words(s@),
        decreases n - i,
    {
        if is_whitespace(s[i]) {
            proof {
                lemma_words_ws(s@, i as int);
            }
            i = i + 1;
        } else {
            let mut k: usize = i + 1;
            while k < n && !is_whitespace(s[k])
                invariant
                    i < k <= n,
                    n == s@.len(),
                    forall|j: int| i <= j < k ==> !is_ws(#[trigger] s@[j]),
                decreases n - k,
            {
                k = k + 1;
            }
            let mut w: Vec<char> = Vec::new();
            let mut j: usize = i;
            while j < k
                invariant
                    i <= j <= k <= n,
                    n == s@.len(),
                    w@ == s@.subrange(i as int, j as int),
                decreases k - j,
            {
                w.push(s[j]);
                j = j + 1;
                assert(w@ =~= s@.subrange(i as int, j as int));
            }
            proof {
                lemma_words_run(s@, i as int, k as int);
            }
            let ghost before = r@.map_values(|w: Vec<char>| w@);
            r.push(w);
            assert(r@.map_values(|w: Vec<char>| w@) =~= before.push(s@.subrange(i as int, k as int)));
            i = k;
        }
    }
    assert(s@.skip(n as int) =~= Seq::<char>::empty());
    assert(r@.map_values(|w: Vec<char>| w@) =~= r@.map_values(|w: Vec<char>| w@) + words(
        s@.skip(n as int),
    ));
    r
}

/// The pieces joined with `sep` between each two (`[T]::join`).
pub open spec fn join(pieces: Seq<Seq<char>>, sep: Seq<char>) -> Seq<char>
    decreases pieces.len(),
{
    if pieces.len() == 0 {
        seq![]
    } else if pieces.len() == 1 {
        pieces[0]
    } else {
        join(pieces.drop_last(), sep) + sep + pieces.last()
    }
}

/// Joins character sequences with a separator.
pub fn join_chars(pieces: &Vec<Vec<char>>, sep: &str) -> (r: String)
    ensures
        r@ == join(pieces@.map_values(|w: Vec<char>| w@), sep@),
{
    let ghost ps = pieces@.map_values(|w: Vec<char>| w@);
    let mut r = String::new();
    let mut i: usize = 0;
    while i < pieces.len()
        invariant
            i <= pieces@.len(),
            ps == pieces@.map_values(|w: Vec<char>| w@),
            r@ == join(ps.take(i as int), sep@),
        decreases pieces@.len() - i,
    {
        if i > 0 {
            push_str(&mut r, sep);
        }
        let w = &pieces[i];
        let mut j: usize = 0;
        let ghost start = r@;
        while j < w.len()
            invariant
                j <= w@.len(),
                r@ == start + w@.take(j as int),
            decreases w@.len() - j,
        {
            push_char(&mut r, w[j]);
            j = j + 1;
            assert(r@ =~= start + w@.take(j as int));
        }
        assert(w@.take(w@.len() as int) =~= w@);
        assert(ps.take(i + 1).drop_last() =~= ps.take(i as int));
        i = i + 1;
    }
    assert(ps.take(pieces@.len() as int) =~= ps);
    r
}

/// Joins strings with a separator.
pub fn join_strings(pieces: &Vec<String>, sep: &str) -> (r: String)
    ensures
        r@ == join(pieces@.map_values(|w: String| w@), sep@),
{
    let ghost ps = pieces@.map_values(|w: String| w@);
    let mut r = String::new();
    let mut i: usize = 0;
    while i < pieces.len()
        invariant
            i <= pieces@.len(),
            ps == pieces@.map_values(|w: String| w@),
            r@ == join(ps.take(i as int), sep@),
        decreases pieces@.len() - i,
    {
        if i > 0 {
            push_str(&mut r, sep);
        }
        push_str(&mut r, pieces[i].as_str());
        assert(ps.take(i + 1).drop_last() =~= ps.take(i as int));
        i = i + 1;
    }
    assert(ps.take(pieces@.len() as int) =~= ps);
    r
}


pub open spec fn digit(d: nat) -> char {
    (48 + d) as char
}

/// Decimal digits of `n`, most significant first, no leading zeros (`format!("{n}")`).
pub open spec fn dec(n: nat) -> Seq<char>
    decreases n,
{
    if n < 10 {
        seq![digit(n)]
    } else {
        dec(n / 10).push(digit(n % 10))
    }
}

/// `s` left-padded with zeros to at least `width` characters (`format!("{n:0width$}")`).
pub open spec fn zero_pad(s: Seq<char>, width: nat) -> Seq<char> {
    if s.len() >= width {
        s
    } else {
        Seq::new((width - s.len()) as nat, |i: int| '0') + s
    }
}

pub open spec fn dec_pad(n: nat, width: nat) -> Seq<char> {
    zero_pad(dec(n), width)
}

pub proof fn lemma_dec_len(n: nat)
    ensures
        1 <= dec(n).len(),
        n < 10 ==> dec(n).len() == 1,
        n < 100 ==> dec(n).len() <= 2,
        n < 1000 ==> dec(n).len() <= 3,
    decreases n,
{
    if n >= 10 {
        lemma_dec_len(n / 10);
    }
}

fn dec_digits(n: u64) -> (v: Vec<char>)
    ensures
        v@ == dec(n as nat),
    decreases n,
{
    if n < 10 {
        let mut v: Vec<char> = Vec::new();
        v.push(((48 + n) as u8) as char);
        v
    } else {
        let mut v = dec_digits(n / 10);
        v.push(((48 + n % 10) as u8) as char);
        v
    }
}

/// Appends `n` in decimal, left-padded with zeros to `width`.
pub fn push_dec(s: &mut String, n: u64, width: usize)
    ensures
        final(s)@ == old(s)@ + dec_pad(n as nat, width as nat),
{
    let v = dec_digits(n);
    let ghost start = s@;
    let mut k: usize = v.len();
    while k < width
        invariant
            v.len() <= k <= width || (k == v.len() && k >= width),
            s@ == start + Seq::new((k - v@.len()) as nat, |i: int| '0'),
        decreases width - k,
    {
        push_char(s, '0');
        k = k + 1;
        assert(s@ =~= start + Seq::new((k - v@.len()) as nat, |i: int| '0'));
    }
    let ghost mid = s@;
    let mut j: usize = 0;
    while j < v.len()
        invariant
            j <= v@.len(),
            s@ == mid + v@.take(j as int),
        decreases v@.len() - j,
    {
        push_char(s, v[j]);
        j = j + 1;
        assert(s@ =~= mid + v@.take(j as int));
    }
    assert(v@.take(v@.len() as int) =~= v@);
    if v.len() >= width {
        assert(Seq::new((k - v@.len()) as nat, |i: int| '0') =~= Seq::<char>::empty());
        assert(s@ =~= start + dec(n as nat));
    } else {
        assert(s@ =~= start + (Seq::new((width - v@.len()) as nat, |i: int| '0') + v@));
    }
}

/// `n` in decimal (`n.to_string()`).
pub fn dec_string(n: u64) -> (s: String)
    ensures
        s@ == dec(n as nat),
{
    let mut s = String::new();
    push_dec(&mut s, n, 0);
    assert(s@ =~= dec(n as nat));
    s
}

/// Lower-case hexadecimal digit.
pub open spec fn hex_lower(d: nat) -> char {
    if d < 10 {
        (48 + d) as char
    } else {
        (87 + d) as char
    }
}

/// Upper-case hexadecimal digit.
pub open spec fn hex_upper(d: nat) -> char {
    if d < 10 {
        (48 + d) as char
    } else {
        (55 + d) as char
    }
}

/// The last `k` lower-case hexadecimal digits of `n`, most significant first.
pub open spec fn hex_fixed(n: nat, k: nat) -> Seq<char>
    decreases k,
{
    if k == 0 {
        seq![]
    } else {
        hex_fixed(n / 16, (k - 1) as nat).push(hex_lower(n % 16))
    }
}

/// `format!("{n:016x}")`.
pub fn hex16(n: u64) -> (s: String)
    ensures
        s@ == hex_fixed(n as nat, 16),
{
    let mut digits: Vec<char> = Vec::new();
    let mut m: u64 = n;
    let mut k: usize = 0;
    assert(pow16(0) == 1);
    assert(n as nat / 1 == n as nat);
    while k < 16
        invariant
            k <= 16,
            digits@.len() == k,
            m as nat == n as nat / pow16(k as nat),
            forall|j: int| 0 <= j < k ==> #[trigger] digits@[j] == hex_lower((n as nat / pow16(j as nat)) % 16),
        decreases 16 - k,
    {
        let d = m % 16;
        let c = if d < 10 { ((48 + d) as u8) as char } else { ((87 + d) as u8) as char };
        digits.push(c);
        proof {
            lemma_pow16_div(n as nat, k as nat);
        }
        m = m / 16;
        k = k + 1;
    }
    let mut s = String::new();
    let mut i: usize = 16;
    while i > 0
        invariant
            i <= 16,
            digits@.len() == 16,
            forall|j: int| 0 <= j < 16 ==> #[trigger] digits@[j] == hex_lower((n as nat / pow16(j as nat)) % 16),
            s@ == hex_fixed(n as nat / pow16(i as nat), (16 - i) as nat),
        decreases i,
    {
        i = i - 1;
        proof {
            lemma_pow16_div(n as nat, i as nat);
            assert(hex_fixed(n as nat / pow16(i as nat), (16 - i) as nat) == hex_fixed(
                n as nat / pow16(i as nat) / 16,
                (16 - i - 1) as nat,
            ).push(hex_lower((n as nat / pow16(i as nat)) % 16)));
        }
        push_char(&mut s, digits[i]);
    }
    assert(pow16(0) == 1);
    s
}

pub open spec fn pow16(k: nat) -> nat
    decreases k,
{
    if k == 0 {
        1
    } else {
        16 * pow16((k - 1) as nat)
    }
}

proof fn lemma_pow16_div(n: nat, k: nat)
    ensures
        pow16(k) > 0,
        n / pow16(k + 1) == n / pow16(k) / 16,
    decreases k,
{
    if k > 0 {
        lemma_pow16_div(n, (k - 1) as nat);
    }
    assert(pow16(k + 1) == 16 * pow16(k));
    vstd::arithmetic::div_mod::lemma_div_denominator(n as int, pow16(k) as int, 16);
    vstd::arithmetic::mul::lemma_mul_is_commutative(pow16(k) as int, 16);
}


/// Character-wise equality of two character sequences.
pub fn chars_eq(a: &Vec<char>, b: &Vec<char>) -> (r: bool)
    ensures
        r == (a@ == b@),
{
    if a.len() != b.len() {
        return false;
    }
    let mut i: usize = 0;
    while i < a.len()
        invariant
            i <= a@.len(),
            a@.len() == b@.len(),
            forall|j: int| 0 <= j < i ==> a@[j] == b@[j],
        decreases a@.len() - i,
    {
        if a[i] != b[i] {
            return false;
        }
        i = i + 1;
    }
    assert(a@ =~= b@);
    true
}

/// String equality (`str == str`).
pub fn str_eq(a: &str, b: &str) -> (r: bool)
    ensures
        r == (a@ == b@),
{
    let x = chars_of(a);
    let y = chars_of(b);
    chars_eq(&x, &y)
}


/// What `str::to_lowercase` returns for a string: the Unicode lower-case mapping, which
/// takes far more than a few lines to write down.
pub uninterp spec fn spec_to_lowercase(s: Seq<char>) -> Seq<char>;

/// `str::to_lowercase`. Claimed: the result is the name above applied to the argument, which
/// holds because the mapping depends on the string alone.
#[verifier::external_body]
pub(crate) fn to_lowercase(s: &str) -> (r: String)
    ensures
        r@ == spec_to_lowercase(s@),
{
    s.to_lowercase()
}

/// `needle` occurs in `hay` as a contiguous run (`str::contains`).
pub open spec fn contains(hay: Seq<char>, needle: Seq<char>) -> bool {
    exists|i: int| 0 <= i <= hay.len() - needle.len() && #[trigger] hay.subrange(i, i + needle.len()) == needle
}

pub fn contains_chars(hay: &Vec<char>, needle: &Vec<char>) -> (r: bool)
    ensures
        r == contains(hay@, needle@),
{
    let n = hay.len();
    let m = needle.len();
    if m > n {
        assert forall|i: int| 0 <= i <= hay@.len() - needle@.len() implies #[trigger] hay@.subrange(i, i + needle@.len()) != needle@ by {}
        return false;
    }
    let mut i: usize = 0;
    while i <= n - m
        invariant
            m <= n,
            n == hay@.len(),
            m == needle@.len(),
            i <= n - m + 1,
            forall|k: int| 0 <= k < i ==> #[trigger] hay@.subrange(k, k + m) != needle@,
        decreases n - m + 1 - i,
    {
        let mut j: usize = 0;
        while j < m && hay[i + j] == needle[j]
            invariant
                j <= m,
                i <= n - m,
                n == hay@.len(),
                m == needle@.len(),
                forall|k: int| 0 <= k < j ==> hay@[i + k] == needle@[k],
            decreases m - j,
        {
            j = j + 1;
        }
        if j == m {
            assert(hay@.subrange(i as int, i + m) =~= needle@);
            return true;
        }
        assert(hay@.subrange(i as int, i + m)[j as int] != needle@[j as int]);
        i = i + 1;
    }
    false
}


/// Removes the last character, if any (`String::pop`).
#[verifier::external_body]
pub(crate) fn pop_char(s: &mut String)
    ensures
        final(s)@ == if old(s)@.len() == 0 { old(s)@ } else { old(s)@.drop_last() },
{
    s.pop();
}


pub open spec fn is_lower_hex(c: char) -> bool {
    ('0' <= c <= '9') || ('a' <= c <= 'f')
}

/// Fixed-width hexadecimal is exactly that wide and holds only lower-case hex digits.
pub proof fn lemma_hex_fixed_shape(n: nat, k: nat)
    ensures
        hex_fixed(n, k).len() == k,
        forall|i: int| 0 <= i < k ==> is_lower_hex(#[trigger] hex_fixed(n, k)[i]),
    decreases k,
{
    if k > 0 {
        lemma_hex_fixed_shape(n / 16, (k - 1) as nat);
        let d = n % 16;
        assert(is_lower_hex(hex_lower(d)));
        assert forall|i: int| 0 <= i < k implies is_lower_hex(#[trigger] hex_fixed(n, k)[i]) by {
            if i < k - 1 {
                assert(hex_fixed(n, k)[i] == hex_fixed(n / 16, (k - 1) as nat)[i]);
            }
        }
    }
}


/// `str::trim` on a string.
pub fn trim_str(s: &str) -> (r: String)
    ensures
        r@ == trim(s@),
{
    let cs = chars_of(s);
    let t = trim_chars(&cs);
    string_of(t.as_slice())
}

/// ASCII upper-case letters mapped to lower case, every other character kept
/// (`char::to_ascii_lowercase`).
pub open spec fn ascii_lower(c: char) -> char {
    if 'A' <= c <= 'Z' {
        ((c as u32) + 32) as char
    } else {
        c
    }
}

/// Equal but for the case of ASCII letters (`str::eq_ignore_ascii_case`).
pub open spec fn eq_ascii_nocase(a: Seq<char>, b: Seq<char>) -> bool {
    a.len() == b.len() && forall|i: int| 0 <= i < a.len() ==> ascii_lower(#[trigger] a[i]) == ascii_lower(b[i])
}

pub fn to_ascii_lower(c: char) -> (r: char)
    ensures
        r == ascii_lower(c),
{
    if 'A' <= c && c <= 'Z' {
        ((c as u8) + 32) as char
    } else {
        c
    }
}

pub fn eq_ignore_ascii_case(a: &str, b: &str) -> (r: bool)
    ensures
        r == eq_ascii_nocase(a@, b@),
{
    let x = chars_of(a);
    let y = chars_of(b);
    if x.len() != y.len() {
        return false;
    }
    let mut i: usize = 0;
    while i < x.len()
        invariant
            i <= x@.len(),
            x@ == a@,
            y@ == b@,
            x@.len() == y@.len(),
            forall|j: int| 0 <= j < i ==> ascii_lower(#[trigger] x@[j]) == ascii_lower(y@[j]),
        decreases x@.len() - i,
    {
        if to_ascii_lower(x[i]) != to_ascii_lower(y[i]) {
            return false;
        }
        i = i + 1;
    }
    true
}

/// `s` begins with `p`.
pub open spec fn starts_with(s: Seq<char>, p: Seq<char>) -> bool {
    p.len() <= s.len() && s.take(p.len() as int) == p
}


proof fn lemma_run_len_before_space(a: Seq<char>, b: Seq<char>)
    ensures
        run_len(a + seq![' '] + b) == run_len(a),
    decreases a.len(),
{
    let s = a + seq![' '] + b;
    if a.len() == 0 {
        assert(s[0] == ' ');
    } else if !is_ws(a[0]) {
        assert(s[0] == a[0]);
        assert(s.drop_first() =~= a.drop_first() + seq![' '] + b);
        lemma_run_len_before_space(a.drop_first(), b);
    } else {
        assert(s[0] == a[0]);
    }
}

/// A space splits words: the words of `a`, a space and `b` are those of `a`, then those of `b`.
pub proof fn lemma_words_split(a: Seq<char>, b: Seq<char>)
    ensures
        words(a + seq![' '] + b) == words(a) + words(b),
    decreases a.len(),
{
    let s = a + seq![' '] + b;
    if a.len() == 0 {
        assert(s[0] == ' ');
        assert(s.drop_first() =~= b);
        assert(words(a) =~= Seq::<Seq<char>>::empty());
        assert(words(a) + words(b) =~= words(b));
    } else if is_ws(a[0]) {
        assert(s[0] == a[0]);
        assert(s.drop_first() =~= a.drop_first() + seq![' '] + b);
        lemma_words_split(a.drop_first(), b);
    } else {
        assert(s[0] == a[0]);
        lemma_run_len_before_space(a, b);
        lemma_run_len_le(a);
        let n = run_len(a);
        lemma_run_len_pos(a);
        assert(s.take(n as int) =~= a.take(n as int));
        assert(s.skip(n as int) =~= a.skip(n as int) + seq![' '] + b);
        lemma_words_split(a.skip(n as int), b);
        assert(seq![a.take(n as int)] + (words(a.skip(n as int)) + words(b)) =~= (seq![a.take(n as int)] + words(
            a.skip(n as int),
        )) + words(b));
    }
}

proof fn lemma_run_len_pos(a: Seq<char>)
    requires
        a.len() > 0,
        !is_ws(a[0]),
    ensures
        run_len(a) > 0,
{
}


/// A word: not empty, and no white space in it.
pub open spec fn is_word(w: Seq<char>) -> bool {
    w.len() > 0 && forall|j: int| 0 <= j < w.len() ==> !is_ws(#[trigger] w[j])
}

proof fn lemma_run_len_no_ws(s: Seq<char>, j: int)
    requires
        0 <= j < run_len(s),
    ensures
        j < s.len(),
        !is_ws(s[j]),
    decreases s.len(),
{
    lemma_run_len_le(s);
    if j > 0 {
        lemma_run_len_no_ws(s.drop_first(), j - 1);
    }
}

/// What `split_whitespace` gives are words.
pub proof fn lemma_words_are_words(s: Seq<char>)
    ensures
        forall|i: int| 0 <= i < words(s).len() ==> is_word(#[trigger] words(s)[i]),
    decreases s.len(),
{
    if s.len() > 0 {
        if is_ws(s[0]) {
            lemma_words_are_words(s.drop_first());
            assert(words(s) == words(s.drop_first()));
        } else {
            let n = run_len(s);
            lemma_run_len_le(s);
            lemma_run_len_pos(s);
            lemma_words_are_words(s.skip(n as int));
            let w = s.take(n as int);
            assert(words(s) == seq![w] + words(s.skip(n as int)));
            assert forall|j: int| 0 <= j < w.len() implies !is_ws(#[trigger] w[j]) by {
                lemma_run_len_no_ws(s, j);
            }
            assert(is_word(w));
            assert(words(s)[0] == w);
            assert forall|i: int| 0 <= i < words(s).len() implies is_word(#[trigger] words(s)[i]) by {
                if i > 0 {
                    assert(words(s)[i] == words(s.skip(n as int))[i - 1]);
                    assert(is_word(words(s.skip(n as int))[i - 1]));
                }
            }
        }
    }
}

/// A word alone splits into itself.
pub proof fn lemma_word_alone(w: Seq<char>)
    requires
        is_word(w),
    ensures
        words(w) == seq![w],
{
    lemma_run_len_exact(w, w.len() as int);
    assert(w.take(w.len() as int) =~= w);
    assert(w.skip(w.len() as int) =~= Seq::<char>::empty());
    assert(words(Seq::<char>::empty()) =~= Seq::<Seq<char>>::empty());
    assert(seq![w] + Seq::<Seq<char>>::empty() =~= seq![w]);
}

/// Words joined with single spaces split back into the same words.
pub proof fn lemma_words_of_joined(ws: Seq<Seq<char>>)
    requires
        forall|i: int| 0 <= i < ws.len() ==> is_word(#[trigger] ws[i]),
    ensures
        words(join(ws, seq![' '])) == ws,
    decreases ws.len(),
{
    if ws.len() == 0 {
        assert(words(Seq::<char>::empty()) =~= ws);
    } else if ws.len() == 1 {
        lemma_word_alone(ws[0]);
        assert(ws =~= seq![ws[0]]);
    } else {
        let front = ws.drop_last();
        assert forall|i: int| 0 <= i < front.len() implies is_word(#[trigger] front[i]) by {
            assert(front[i] == ws[i]);
        }
        lemma_words_of_joined(front);
        lemma_words_split(join(front, seq![' ']), ws.last());
        lemma_word_alone(ws.last());
        assert(front + seq![ws.last()] =~= ws);
    }
}

/// Text made of the words of something, joined with single spaces, is its own such form:
/// splitting it on white space and joining with single spaces gives it back.
pub proof fn lemma_joined_words_are_stable(s: Seq<char>)
    ensures
        join(words(join(words(s), seq![' '])), seq![' ']) == join(words(s), seq![' ']),
{
    lemma_words_are_words(s);
    lemma_words_of_joined(words(s));
}

proof fn lemma_run_len_push_ws(a: Seq<char>, c: char)
    requires
        is_ws(c),
    ensures
        run_len(a.push(c)) == run_len(a),
    decreases a.len(),
{
    let s = a.push(c);
    if a.len() == 0 {
        assert(s[0] == c);
    } else {
        assert(s[0] == a[0]);
        if !is_ws(a[0]) {
            assert(s.drop_first() =~= a.drop_first().push(c));
            lemma_run_len_push_ws(a.drop_first(), c);
        }
    }
}

/// White space at the end adds no word.
pub proof fn lemma_words_push_ws(a: Seq<char>, c: char)
    requires
        is_ws(c),
    ensures
        words(a.push(c)) == words(a),
    decreases a.len(),
{
    let s = a.push(c);
    if a.len() == 0 {
        assert(s[0] == c);
        assert(s.drop_first() =~= Seq::<char>::empty());
        assert(words(s) == words(s.drop_first()));
        assert(words(Seq::<char>::empty()) =~= Seq::<Seq<char>>::empty());
    } else if is_ws(a[0]) {
        assert(s[0] == a[0]);
        assert(s.drop_first() =~= a.drop_first().push(c));
        lemma_words_push_ws(a.drop_first(), c);
        assert(words(s) == words(s.drop_first()));
    } else {
        assert(s[0] == a[0]);
        lemma_run_len_push_ws(a, c);
        lemma_run_len_le(a);
        lemma_run_len_pos(a);
        let n = run_len(a) as int;
        assert(s.take(n) =~= a.take(n));
        assert(s.skip(n) =~= a.skip(n).push(c));
        lemma_words_push_ws(a.skip(n), c);
        assert(words(s) == seq![s.take(n)] + words(s.skip(n)));
        assert(words(a) == seq![a.take(n)] + words(a.skip(n)));
    }
}

/// White space in front or behind adds no word.
pub proof fn lemma_words_pad(a: Seq<char>, x: Seq<char>, b: Seq<char>)
    requires
        forall|j: int| 0 <= j < a.len() ==> is_ws(#[trigger] a[j]),
        forall|j: int| 0 <= j < b.len() ==> is_ws(#[trigger] b[j]),
    ensures
        words(a + x + b) == words(x),
    decreases a.len() + b.len(),
{
    if b.len() > 0 {
        let b0 = b.drop_last();
        assert(a + x + b =~= (a + x + b0).push(b.last()));
        assert(is_ws(b[b.len() - 1]));
        lemma_words_push_ws(a + x + b0, b.last());
        assert forall|j: int| 0 <= j < b0.len() implies is_ws(#[trigger] b0[j]) by {
            assert(b0[j] == b[j]);
        }
        lemma_words_pad(a, x, b0);
    } else if a.len() > 0 {
        let s = a + x + b;
        assert(s[0] == a[0]);
        assert(s.drop_first() =~= a.drop_first() + x + b);
        assert forall|j: int| 0 <= j < a.drop_first().len() implies is_ws(#[trigger] a.drop_first()[j]) by {
            assert(a.drop_first()[j] == a[j + 1]);
        }
        lemma_words_pad(a.drop_first(), x, b);
    } else {
        assert(a + x + b =~= x);
    }
}

/// `trim` cuts white space off both ends: the text is some white space, the trimmed text,
/// then some white space. Returns where the trimmed text starts.
pub proof fn lemma_trim_parts(s: Seq<char>) -> (k: int)
    ensures
        0 <= k <= k + trim(s).len() <= s.len(),
        s.subrange(k, k + trim(s).len()) == trim(s),
        forall|j: int| 0 <= j < k ==> is_ws(#[trigger] s[j]),
        forall|j: int| k + trim(s).len() <= j < s.len() ==> is_ws(#[trigger] s[j]),
    decreases s.len(),
{
    if s.len() > 0 && is_ws(s[0]) {
        let k1 = lemma_trim_parts(s.drop_first());
        assert(trim(s) == trim(s.drop_first()));
        let t = trim(s);
        assert(s.subrange(k1 + 1, k1 + 1 + t.len()) =~= s.drop_first().subrange(k1, k1 + t.len()));
        assert forall|j: int| 0 <= j < k1 + 1 implies is_ws(#[trigger] s[j]) by {
            if j > 0 {
                assert(s[j] == s.drop_first()[j - 1]);
            }
        }
        assert forall|j: int| k1 + 1 + t.len() <= j < s.len() implies is_ws(#[trigger] s[j]) by {
            assert(s[j] == s.drop_first()[j - 1]);
        }
        k1 + 1
    } else {
        assert(trim_start(s) == s);
        let m = lemma_trim_end_parts(s);
        assert(s.subrange(0, m) =~= s.take(m));
        0
    }
}

proof fn lemma_trim_end_parts(s: Seq<char>) -> (m: int)
    ensures
        0 <= m <= s.len(),
        trim_end(s) == s.take(m),
        forall|j: int| m <= j < s.len() ==> is_ws(#[trigger] s[j]),
    decreases s.len(),
{
    if s.len() > 0 && is_ws(s.last()) {
        let m = lemma_trim_end_parts(s.drop_last());
        assert(s.drop_last().take(m) =~= s.take(m));
        assert forall|j: int| m <= j < s.len() implies is_ws(#[trigger] s[j]) by {
            if j < s.len() - 1 {
                assert(s[j] == s.drop_last()[j]);
            }
        }
        m
    } else {
        assert(s.take(s.len() as int) =~= s);
        s.len() as int
    }
}

/// Trimming does not change the words.
pub proof fn lemma_words_trim(s: Seq<char>)
    ensures
        words(trim(s)) == words(s),
{
    let k = lemma_trim_parts(s);
    let t = trim(s);
    let a = s.take(k);
    let b = s.skip(k + t.len());
    assert(s =~= a + t + b);
    assert forall|j: int| 0 <= j < a.len() implies is_ws(#[trigger] a[j]) by {
        assert(a[j] == s[j]);
    }
    assert forall|j: int| 0 <= j < b.len() implies is_ws(#[trigger] b[j]) by {
        assert(b[j] == s[k + t.len() + j]);
    }
    lemma_words_pad(a, t, b);
}

} // verus!

