//! Paths are carried as strings; the few path operations the library needs are those of
//! `std::path`, on Unix.
use vstd::prelude::*;

verus! {

/// What `Path::join` gives on Unix for a base and a part: the part alone when it is absolute,
/// else the two with one `/` between them when the base is not empty and does not already
/// end in one.
pub open spec fn spec_path_join(base: Seq<char>, rel: Seq<char>) -> Seq<char> {
    if is_absolute(rel) {
        rel
    } else if base.len() > 0 && base.last() != '/' {
        base + seq!['/'] + rel
    } else {
        base + rel
    }
}

/// `Path::new(base).join(rel)`, as a string.
pub(crate) fn path_join(base: &str, rel: &str) -> (r: String)
    ensures
        r@ == spec_path_join(base@, rel@),
{
    let b = crate::text::chars_of(base);
    let mut out: Vec<char> = Vec::new();
    if !absolute(rel) {
        out = b;
        if out.len() > 0 && out[out.len() - 1] != '/' {
            out.push('/');
        }
    }
    let rs = crate::text::chars_of(rel);
    let mut i: usize = 0;
    let ghost start = out@;
    while i < rs.len()
        invariant
            i <= rs@.len(),
            rs@ == rel@,
            out@ == start + rs@.take(i as int),
        decreases rs@.len() - i,
    {
        out.push(rs[i]);
        i = i + 1;
        assert(out@ =~= start + rs@.take(i as int));
    }
    assert(rs@.take(rs@.len() as int) =~= rs@);
    assert(out@ =~= spec_path_join(base@, rel@));
    crate::text::string_of(out.as_slice())
}


/// What `Path::extension` gives for a path: the part of its last component after the last
/// `.`, unless that component has no `.` or only a leading one.
pub uninterp spec fn spec_extension(path: Seq<char>) -> Option<Seq<char>>;

/// `Path::new(path).extension()`, as a string. Claimed: the result is the name above applied
/// to the argument; it depends on the argument alone.
#[verifier::external_body]
pub(crate) fn extension(path: &str) -> (r: Option<String>)
    ensures
        match r {
            Some(e) => spec_extension(path@) == Some(e@),
            None => spec_extension(path@) is None,
        },
{
    std::path::Path::new(path).extension().map(|e| e.to_string_lossy().into_owned())
}

/// What `Path::parent` gives for a path: the path without its last component, none for a
/// root or an empty path.
pub uninterp spec fn spec_parent(path: Seq<char>) -> Option<Seq<char>>;

/// `Path::new(path).parent()`, as a string. Claimed: the result is the name above applied to
/// the argument; it depends on the argument alone.
#[verifier::external_body]
pub(crate) fn parent(path: &str) -> (r: Option<String>)
    ensures
        match r {
            Some(p) => spec_parent(path@) == Some(p@),
            None => spec_parent(path@) is None,
        },
{
    std::path::Path::new(path).parent().map(|p| p.to_string_lossy().into_owned())
}

/// `Path::is_absolute` on Unix: the path starts at the root.
pub open spec fn is_absolute(path: Seq<char>) -> bool {
    path.len() > 0 && path[0] == '/'
}

pub fn absolute(path: &str) -> (r: bool)
    ensures
        r == is_absolute(path@),
{
    let cs = crate::text::chars_of(path);
    cs.len() > 0 && cs[0] == '/'
}

} // verus!
