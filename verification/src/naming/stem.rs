//! Document-tree file-stem escaping and length truncation.
//!
//! A name projects onto a filename stem via [`file_stem`]; [`escaped_path`] joins the
//! stems of a path's names with `/`. A stem too long for the path budget is cut by
//! [`truncate_stem`], which keeps a prefix and appends a short content hash.

use crate::naming::name::{file_stem_of, Name, SegmentView};
use crate::naming::path::Path;
use crate::text::{
    chars_of, join, join_chars, lemma_take_succ, lemma_views_push, push_chars, seq_eq,
    starts_with, string_of, subrange, views,
};
use sha2::{Digest, Sha256};
use vstd::prelude::*;

verus! {

/// What SHA-256 digests a byte string to.
pub uninterp spec fn sha256_digest(data: Seq<u8>) -> Seq<u8>;

/// `Sha256::digest`: the SHA-256 digest of `data`, 32 bytes long.
#[verifier::external_body]
pub(crate) fn sha256(data: &[u8]) -> (r: Vec<u8>)
    ensures
        r@ == sha256_digest(data@),
        r@.len() == 32,
{
    Sha256::digest(data).to_vec()
}

/// The lowercase hexadecimal digit of `d < 16`.
pub open spec fn hex_char(d: nat) -> char {
    if d < 10 {
        ((d + 48) as u32) as char
    } else {
        ((d + 87) as u32) as char
    }
}

/// The two lowercase hexadecimal digits of a byte.
pub open spec fn hex_byte(b: u8) -> Seq<char> {
    seq![hex_char((b / 16) as nat), hex_char((b % 16) as nat)]
}

/// `0-9a-f`
pub open spec fn is_lower_hex(c: char) -> bool {
    ('0' <= c && c <= '9') || ('a' <= c && c <= 'f')
}

pub proof fn lemma_hex_char(d: nat)
    requires
        d < 16,
    ensures
        is_lower_hex(hex_char(d)),
{
    if d < 10 {
        assert(((d + 48) as u32) as char as u32 == d + 48);
    } else {
        assert(((d + 87) as u32) as char as u32 == d + 87);
    }
}

pub fn hex_digit(d: u8) -> (c: char)
    requires
        d < 16,
    ensures
        c == hex_char(d as nat),
{
    if d < 10 {
        (d + 48) as char
    } else {
        (d + 87) as char
    }
}

/// The lowercase hexadecimal spelling of `bytes`, two digits per byte.
pub open spec fn hex_of(bytes: Seq<u8>) -> Seq<char>
    decreases bytes.len(),
{
    if bytes.len() == 0 {
        Seq::<char>::empty()
    } else {
        hex_of(bytes.drop_last()) + hex_byte(bytes.last())
    }
}

pub fn hex_chars(bytes: &[u8]) -> (r: Vec<char>)
    ensures
        r@ == hex_of(bytes@),
{
    let mut out: Vec<char> = Vec::new();
    let mut i: usize = 0;
    while i < bytes.len()
        invariant
            i <= bytes.len(),
            out@ == hex_of(bytes@.take(i as int)),
        decreases bytes.len() - i,
    {
        let b = bytes[i];
        out.push(hex_digit(b / 16));
        out.push(hex_digit(b % 16));
        assert(bytes@.take(i as int + 1).drop_last() =~= bytes@.take(i as int));
        i = i + 1;
        assert(out@ =~= hex_of(bytes@.take(i as int)));
    }
    assert(bytes@.take(i as int) =~= bytes@);
    out
}

pub proof fn lemma_hex_of(bytes: Seq<u8>)
    ensures
        hex_of(bytes).len() == 2 * bytes.len(),
        forall|k: int| 0 <= k < hex_of(bytes).len() ==> is_lower_hex(#[trigger] hex_of(bytes)[k]),
    decreases bytes.len(),
{
    if bytes.len() > 0 {
        lemma_hex_of(bytes.drop_last());
        let b = bytes.last();
        lemma_hex_char((b / 16) as nat);
        lemma_hex_char((b % 16) as nat);
        let a = hex_of(bytes.drop_last());
        let h = hex_byte(b);
        assert forall|k: int| 0 <= k < hex_of(bytes).len() implies is_lower_hex(#[trigger] hex_of(bytes)[k]) by {
            if k < a.len() {
                assert(hex_of(bytes)[k] == a[k]);
            } else {
                assert(hex_of(bytes)[k] == h[k - a.len()]);
            }
        }
    }
}

/// The first eight hex digits of the SHA-256 digest of `escaped`'s UTF-8 bytes.
pub open spec fn short_hash_of(escaped: Seq<char>) -> Seq<char> {
    hex_of(sha256_digest(vstd::utf8::encode_utf8(escaped)).take(4))
}

fn short_hash(escaped: &str) -> (r: Vec<char>)
    ensures
        r@ == short_hash_of(escaped@),
        r@.len() == 8,
{
    let digest = sha256(escaped.as_bytes());
    let first = digest_prefix(&digest);
    proof {
        lemma_hex_of(first@);
    }
    hex_chars(first.as_slice())
}

fn digest_prefix(digest: &Vec<u8>) -> (r: Vec<u8>)
    requires
        digest@.len() == 32,
    ensures
        r@ == digest@.take(4),
{
    let mut out: Vec<u8> = Vec::new();
    out.push(digest[0]);
    out.push(digest[1]);
    out.push(digest[2]);
    out.push(digest[3]);
    assert(out@ =~= digest@.take(4));
    out
}

/// The smallest `available` budget [`truncate_stem`] can shorten a stem into: `__`
/// and eight hex digits, plus one character of the name.
pub const MIN_TRUNCATED_STEM_BUDGET: usize = 11;

/// `s` without its trailing run of `-` and `_`.
pub open spec fn trim_end_separators(s: Seq<char>) -> Seq<char>
    decreases s.len(),
{
    if s.len() > 0 && (s.last() == '-' || s.last() == '_') {
        trim_end_separators(s.drop_last())
    } else {
        s
    }
}

pub proof fn lemma_trim_end_separators(s: Seq<char>)
    ensures
        trim_end_separators(s).len() <= s.len(),
        s.take(trim_end_separators(s).len() as int) == trim_end_separators(s),
        trim_end_separators(s).len() > 0 ==> trim_end_separators(s).last() != '-'
            && trim_end_separators(s).last() != '_',
    decreases s.len(),
{
    if s.len() > 0 && (s.last() == '-' || s.last() == '_') {
        lemma_trim_end_separators(s.drop_last());
        let t = trim_end_separators(s.drop_last());
        assert(s.take(t.len() as int) =~= s.drop_last().take(t.len() as int));
    } else {
        assert(s.take(s.len() as int) =~= s);
    }
}

/// The kept part of a cut: the first `available - 10` characters, trailing
/// separators trimmed.
pub open spec fn kept_prefix(escaped: Seq<char>, available: int) -> Seq<char> {
    let keep = available - 10;
    trim_end_separators(
        if keep < escaped.len() {
            escaped.take(keep)
        } else {
            escaped
        },
    )
}

/// What [`truncate_stem`] answers.
pub open spec fn truncated_stem(escaped: Seq<char>, available: int) -> Option<Seq<char>> {
    if available < 11 {
        None
    } else {
        Some(kept_prefix(escaped, available) + seq!['_', '_'] + short_hash_of(escaped))
    }
}

/// The largest `i` with `s[i] == s[i + 1] == c`.
pub open spec fn last_pair_index(s: Seq<char>, c: char) -> Option<int>
    decreases s.len(),
{
    if s.len() < 2 {
        None
    } else if s[s.len() - 2] == c && s[s.len() - 1] == c {
        Some(s.len() - 2)
    } else {
        last_pair_index(s.drop_last(), c)
    }
}

/// What [`is_stem_of`] answers: `stem` is `escaped` itself, or, split at its last `__`,
/// a non-empty prefix of `escaped` followed by `escaped`'s short hash.
pub open spec fn stem_of(stem: Seq<char>, escaped: Seq<char>) -> bool {
    stem == escaped || match last_pair_index(stem, '_') {
        None => false,
        Some(i) => {
            let kept = stem.take(i);
            let hash = stem.skip(i + 2);
            &&& kept.len() > 0
            &&& kept.len() <= escaped.len()
            &&& escaped.take(kept.len() as int) == kept
            &&& hash == short_hash_of(escaped)
        },
    }
}

pub open spec fn escaped_path_of(p: Seq<Seq<SegmentView>>) -> Seq<char> {
    join(p.map_values(|n: Seq<SegmentView>| file_stem_of(n)), seq!['/'])
}

/// The filename stem `name` projects onto in a document tree.
pub fn file_stem(name: &Name) -> (r: String)
    ensures
        r@ == file_stem_of(name@),
{
    name.to_file_stem()
}

/// The escaped filesystem path `path` projects onto: each name's stem, joined with `/`.
pub fn escaped_path(path: &Path) -> (r: String)
    ensures
        r@ == escaped_path_of(path@),
{
    let ghost target = path@.map_values(|n: Seq<SegmentView>| file_stem_of(n));
    let mut pieces: Vec<Vec<char>> = Vec::new();
    let mut i: usize = 0;
    while i < path.segments.len()
        invariant
            i <= path.segments.len(),
            target == path@.map_values(|n: Seq<SegmentView>| file_stem_of(n)),
            views(pieces@) == target.take(i as int),
        decreases path.segments.len() - i,
    {
        let piece = path.segments[i].file_stem_chars();
        let ghost old = pieces@;
        pieces.push(piece);
        proof {
            lemma_views_push(old, piece);
            lemma_take_succ(target, i as int);
        }
        i = i + 1;
    }
    assert(target.take(i as int) =~= target);
    let sep = vec!['/'];
    assert(sep@ =~= seq!['/']);
    let r = join_chars(&pieces, sep.as_slice());
    string_of(r.as_slice())
}

/// Shorten an escaped stem to fit within `available` characters, or `None` when
/// `available` is below [`MIN_TRUNCATED_STEM_BUDGET`].
pub fn truncate_stem(escaped: &str, available: usize) -> (r: Option<String>)
    ensures
        match r {
            Some(s) => truncated_stem(escaped@, available as int) == Some(s@),
            None => truncated_stem(escaped@, available as int) is None,
        },
        r is Some ==> short_hash_of(escaped@).len() == 8,
        r is Some ==> forall|k: int|
            0 <= k < 8 ==> is_lower_hex(#[trigger] short_hash_of(escaped@)[k]),
        r matches Some(s) ==> s@.len() <= available,
{
    if available < MIN_TRUNCATED_STEM_BUDGET {
        return None;
    }
    let keep = available - 10;
    let cs = chars_of(escaped);
    let mut prefix = if keep < cs.len() {
        subrange(cs.as_slice(), 0, keep)
    } else {
        cs
    };
    assert(keep < escaped@.len() ==> prefix@ == escaped@.take(keep as int));
    let ghost untrimmed = prefix@;
    while prefix.len() > 0 && (prefix[prefix.len() - 1] == '-' || prefix[prefix.len() - 1] == '_')
        invariant
            trim_end_separators(prefix@) == trim_end_separators(untrimmed),
        decreases prefix.len(),
    {
        prefix.pop();
        assert(prefix@ =~= prefix@);
    }
    assert(prefix@ == trim_end_separators(prefix@));
    let hash = short_hash(escaped);
    proof {
        lemma_hex_of(sha256_digest(vstd::utf8::encode_utf8(escaped@)).take(4));
        lemma_trim_end_separators(untrimmed);
    }
    assert(prefix@.len() <= keep);
    prefix.push('_');
    prefix.push('_');
    push_chars(&mut prefix, hash.as_slice());
    Some(string_of(prefix.as_slice()))
}

pub proof fn lemma_last_pair_index(s: Seq<char>, c: char)
    ensures
        last_pair_index(s, c) matches Some(i) ==> 0 <= i && i + 1 < s.len() && s[i] == c && s[i + 1] == c,
    decreases s.len(),
{
    if s.len() >= 2 && !(s[s.len() - 2] == c && s[s.len() - 1] == c) {
        lemma_last_pair_index(s.drop_last(), c);
    }
}

fn last_pair(s: &[char], c: char) -> (r: Option<usize>)
    ensures
        match r {
            Some(i) => last_pair_index(s@, c) == Some(i as int) && i + 1 < s@.len(),
            None => last_pair_index(s@, c) is None,
        },
{
    let mut n = s.len();
    assert(s@.take(n as int) =~= s@);
    while n >= 2
        invariant
            n <= s.len(),
            last_pair_index(s@, c) == last_pair_index(s@.take(n as int), c),
        decreases n,
    {
        assert(s@.take(n as int)[n - 2] == s@[n - 2]);
        assert(s@.take(n as int)[n - 1] == s@[n - 1]);
        if s[n - 2] == c && s[n - 1] == c {
            proof {
                lemma_last_pair_index(s@, c);
            }
            return Some(n - 2);
        }
        assert(s@.take(n as int).drop_last() =~= s@.take(n as int - 1));
        n = n - 1;
    }
    None
}

/// Whether `stem` is the file stem of the name that escapes to `escaped`: the escaped
/// stem itself, or a cut [`truncate_stem`] could have made of it under some budget.
pub fn is_stem_of(stem: &str, escaped: &str) -> (r: bool)
    ensures
        r == stem_of(stem@, escaped@),
{
    let s = chars_of(stem);
    let e = chars_of(escaped);
    if seq_eq(s.as_slice(), e.as_slice()) {
        return true;
    }
    match last_pair(s.as_slice(), '_') {
        None => false,
        Some(i) => {
            assert(i + 1 < s.len());
            let kept = subrange(s.as_slice(), 0, i);
            let hash = subrange(s.as_slice(), i + 2, s.len());
            assert(kept@ =~= stem@.take(i as int));
            assert(hash@ =~= stem@.skip(i as int + 2));
            let expected = short_hash(escaped);
            kept.len() > 0 && starts_with(e.as_slice(), kept.as_slice()) && seq_eq(
                hash.as_slice(),
                expected.as_slice(),
            )
        },
    }
}

/// A cut stem is recognised as the stem of what it was cut from: whenever
/// `truncate_stem(escaped, available)` keeps at least one character of the name,
/// `is_stem_of` accepts the result for `escaped`.
pub proof fn lemma_truncated_is_stem_of(escaped: Seq<char>, available: int)
    requires
        available >= 11,
        kept_prefix(escaped, available).len() > 0,
    ensures
        truncated_stem(escaped, available) matches Some(t) && stem_of(t, escaped),
{
    let kept = kept_prefix(escaped, available);
    let h = short_hash_of(escaped);
    let t = kept + seq!['_', '_'] + h;
    let keep = available - 10;
    let pre = if keep < escaped.len() {
        escaped.take(keep)
    } else {
        escaped
    };
    lemma_trim_end_separators(pre);
    lemma_hex_of(sha256_digest(vstd::utf8::encode_utf8(escaped)).take(4));
    // The last `__` of `t` is the one before the hash.
    assert forall|j: int| kept.len() < j < t.len() - 1 implies !(#[trigger] t[j] == '_' && t[j + 1] == '_') by {
        if j == kept.len() + 1 {
            assert(t[j + 1] == h[0]);
            assert(is_lower_hex(h[0]));
        } else {
            assert(t[j] == h[j - kept.len() - 2]);
            assert(is_lower_hex(h[j - kept.len() - 2]));
        }
    }
    lemma_last_pair_at(t, '_', kept.len() as int);
    assert(t.take(kept.len() as int) =~= kept);
    assert(t.skip(kept.len() as int + 2) =~= h);
    assert(escaped.take(kept.len() as int) =~= kept) by {
        assert(pre.take(kept.len() as int) == kept);
        if keep < escaped.len() {
            assert(escaped.take(kept.len() as int) =~= escaped.take(keep).take(kept.len() as int));
        }
    }
}

/// When `s[i..i+2]` is a pair and no later index starts one, it is the last pair.
pub proof fn lemma_last_pair_at(s: Seq<char>, c: char, i: int)
    requires
        0 <= i < s.len() - 1,
        s[i] == c && s[i + 1] == c,
        forall|j: int| i < j < s.len() - 1 ==> !(#[trigger] s[j] == c && s[j + 1] == c),
    ensures
        last_pair_index(s, c) == Some(i),
    decreases s.len(),
{
    if s.len() - 2 != i {
        let d = s.drop_last();
        assert forall|j: int| i < j < d.len() - 1 implies !(#[trigger] d[j] == c && d[j + 1] == c) by {
            assert(d[j] == s[j] && d[j + 1] == s[j + 1]);
        }
        assert(!(s[s.len() - 2] == c && s[s.len() - 1] == c));
        lemma_last_pair_at(d, c, i);
    }
}

/// Every escaped stem is a stem of itself.
pub proof fn lemma_stem_of_itself(escaped: Seq<char>)
    ensures
        stem_of(escaped, escaped),
{
}

/// A stem other than the escaped one, with no `__` in it, is not a stem of it.
pub proof fn lemma_stem_without_pair(stem: Seq<char>, escaped: Seq<char>)
    requires
        stem != escaped,
        forall|j: int| 0 <= j < stem.len() - 1 ==> !(#[trigger] stem[j] == '_' && stem[j + 1] == '_'),
    ensures
        !stem_of(stem, escaped),
{
    lemma_last_pair_index(stem, '_');
}

} // verus!
