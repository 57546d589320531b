//! The cache directory: `index.json`, `meta/`, `posters/`. Nothing else knows that layout.
//! Everything in it is derived from disk or the provider and safe to delete. Reading and
//! writing the files is the application's part; this module names them.
use crate::paths::{path_join, spec_path_join};
use crate::text::{hex16, hex_fixed, push_str};
use vstd::prelude::*;

verus! {

pub const INDEX_FILE: &'static str = "index.json";

pub const FNV_OFFSET: u64 = 0xcbf29ce484222325;

pub const FNV_PRIME: u64 = 0x100000001b3;

/// FNV-1a 64 over a byte string.
pub open spec fn fnv1a(bytes: Seq<u8>) -> u64
    decreases bytes.len(),
{
    if bytes.len() == 0 {
        FNV_OFFSET
    } else {
        let h = fnv1a(bytes.drop_last()) ^ (bytes.last() as u64);
        ((h as nat * FNV_PRIME as nat) % 0x10000000000000000) as u64
    }
}

/// The cache key of an item id: FNV-1a 64 of its UTF-8 bytes, as 16 lower-case hex digits.
pub open spec fn cache_key_spec(item_id: Seq<char>) -> Seq<char> {
    hex_fixed(fnv1a(vstd::utf8::encode_utf8(item_id)) as nat, 16)
}

/// Stable file name for an item id: FNV-1a 64 as hex.
pub fn cache_key(item_id: &str) -> (r: String)
    ensures
        r@ == cache_key_spec(item_id@),
        r@.len() == 16,
        forall|i: int| 0 <= i < 16 ==> crate::text::is_lower_hex(#[trigger] r@[i]),
{
    let bytes = item_id.as_bytes();
    let mut h: u64 = FNV_OFFSET;
    let mut i: usize = 0;
    while i < bytes.len()
        invariant
            i <= bytes@.len(),
            bytes@ == vstd::utf8::encode_utf8(item_id@),
            h == fnv1a(bytes@.take(i as int)),
        decreases bytes@.len() - i,
    {
        proof {
            assert(bytes@.take(i + 1).drop_last() =~= bytes@.take(i as int));
            assert(bytes@.take(i + 1).last() == bytes@[i as int]);
        }
        h = h ^ (bytes[i] as u64);
        h = h.wrapping_mul(FNV_PRIME);
        i = i + 1;
    }
    assert(bytes@.take(i as int) =~= bytes@);
    proof {
        crate::text::lemma_hex_fixed_shape(h as nat, 16);
    }
    hex16(h)
}

/// `<key>.jpg`: the poster's file name in the posters directory.
pub open spec fn poster_file_spec(item_id: Seq<char>) -> Seq<char> {
    cache_key_spec(item_id) + ".jpg"@
}

pub fn poster_file(item_id: &str) -> (r: String)
    ensures
        r@ == poster_file_spec(item_id@),
{
    let mut s = cache_key(item_id);
    push_str(&mut s, ".jpg");
    s
}

pub struct Cache {
    dir: String,
}

impl Cache {
    pub closed spec fn dir_spec(&self) -> Seq<char> {
        self.dir@
    }

    pub fn open(dir: String) -> (c: Cache)
        ensures
            c.dir_spec() == dir@,
    {
        Cache { dir }
    }

    pub fn dir(&self) -> (r: &str)
        ensures
            r@ == self.dir_spec(),
    {
        self.dir.as_str()
    }

    /// `<dir>/index.json`.
    pub fn index_path(&self) -> (r: String)
        ensures
            r@ == spec_path_join(self.dir_spec(), INDEX_FILE@),
    {
        path_join(self.dir.as_str(), INDEX_FILE)
    }

    /// `<dir>/posters/<key>.jpg`.
    pub fn poster_path(&self, item_id: &str) -> (r: String)
        ensures
            r@ == spec_path_join(spec_path_join(self.dir_spec(), "posters"@), poster_file_spec(item_id@)),
    {
        let d = path_join(self.dir.as_str(), "posters");
        let f = poster_file(item_id);
        path_join(d.as_str(), f.as_str())
    }

    /// `<dir>/meta/<key>.json`.
    pub fn meta_path(&self, item_id: &str) -> (r: String)
        ensures
            r@ == spec_path_join(spec_path_join(self.dir_spec(), "meta"@), cache_key_spec(item_id@) + ".json"@),
    {
        let d = path_join(self.dir.as_str(), "meta");
        let mut f = cache_key(item_id);
        push_str(&mut f, ".json");
        path_join(d.as_str(), f.as_str())
    }
}

} // verus!
