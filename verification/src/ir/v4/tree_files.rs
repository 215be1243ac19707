//! The files a document tree is made of: the escaped stem grammar their names follow,
//! and the manifest's spelling of the distribution kind.

use crate::naming::name::{
    file_stem_of, joined_stem, reserved_device, stem_piece, valid_name, SegmentView,
};
use crate::naming::stem::{is_lower_hex, kept_prefix, lemma_trim_end_separators, trim_end_separators};
use crate::ir::v4::access::AccessControlled;
use crate::ir::v4::module::Documented;
use crate::ir::v4::types::{TypeDefinition, TypeSpecification};
use crate::ir::v4::FormatVersion;
use crate::naming::name::Name;
use crate::text::{chars_of, is_lower_alnum, join, lower_seq, str_eq};
use vstd::prelude::*;

verus! {

// ---------------------------------------------------------------------------
// The escaped stem grammar: `^_?[a-z0-9]+(-_?[a-z0-9]+)*(__[0-9a-f]{8})?_?$`
// ---------------------------------------------------------------------------

/// Whether the character at `i` may stand where it stands in the hyphen-joined part
/// `_?[a-z0-9]+(-_?[a-z0-9]+)*`: a letter or digit anywhere; a `-` between two words;
/// a `_` only at the start of a word and followed by a letter or digit.
pub open spec fn body_char_ok(b: Seq<char>, i: int) -> bool {
    let c = b[i];
    if is_lower_alnum(c) {
        true
    } else if c == '-' {
        0 < i && i + 1 < b.len() && b[i + 1] != '-'
    } else if c == '_' {
        (i == 0 || b[i - 1] == '-') && i + 1 < b.len() && is_lower_alnum(b[i + 1])
    } else {
        false
    }
}

/// `_?[a-z0-9]+(-_?[a-z0-9]+)*`
pub open spec fn stem_body(b: Seq<char>) -> bool {
    b.len() > 0 && forall|i: int| 0 <= i < b.len() ==> #[trigger] body_char_ok(b, i)
}

/// `s` without one trailing `_`, if it ends in one.
pub open spec fn strip_trailing_underscore(s: Seq<char>) -> Seq<char> {
    if s.len() > 0 && s.last() == '_' {
        s.drop_last()
    } else {
        s
    }
}

/// Whether `s` ends in `__` and eight lowercase hex digits.
pub open spec fn hash_suffix(s: Seq<char>) -> bool {
    &&& s.len() >= 10
    &&& s[s.len() - 10] == '_'
    &&& s[s.len() - 9] == '_'
    &&& forall|k: int| s.len() - 8 <= k < s.len() ==> is_lower_hex(#[trigger] s[k])
}

/// `s` without its hash suffix, if it carries one.
pub open spec fn strip_hash_suffix(s: Seq<char>) -> Seq<char> {
    if hash_suffix(s) {
        s.take(s.len() - 10)
    } else {
        s
    }
}

/// Whether `s` is an escaped file stem: a hyphen-joined body, then an optional hash
/// suffix, then an optional `_`.
pub open spec fn escaped_stem(s: Seq<char>) -> bool {
    stem_body(strip_hash_suffix(strip_trailing_underscore(s)))
}

fn char_ok_at(b: &Vec<char>, n: usize, i: usize) -> (r: bool)
    requires
        n <= b@.len(),
        i < n,
    ensures
        r == body_char_ok(b@.take(n as int), i as int),
{
    let ghost t = b@.take(n as int);
    let c = b[i];
    if ('a' <= c && c <= 'z') || ('0' <= c && c <= '9') {
        true
    } else if c == '-' {
        0 < i && i + 1 < n && b[i + 1] != '-'
    } else if c == '_' {
        let before = i == 0 || b[i - 1] == '-';
        if !before || i + 1 >= n {
            false
        } else {
            let d = b[i + 1];
            ('a' <= d && d <= 'z') || ('0' <= d && d <= '9')
        }
    } else {
        false
    }
}

fn has_hash_suffix(b: &Vec<char>, n: usize) -> (r: bool)
    requires
        n <= b@.len(),
    ensures
        r == hash_suffix(b@.take(n as int)),
{
    let ghost t = b@.take(n as int);
    if n < 10 || b[n - 10] != '_' || b[n - 9] != '_' {
        return false;
    }
    let mut k: usize = n - 8;
    while k < n
        invariant
            n - 8 <= k <= n,
            n <= b@.len(),
            t == b@.take(n as int),
            forall|j: int| n - 8 <= j < k ==> is_lower_hex(#[trigger] t[j]),
        decreases n - k,
    {
        let c = b[k];
        if !(('0' <= c && c <= '9') || ('a' <= c && c <= 'f')) {
            assert(!is_lower_hex(t[k as int]));
            return false;
        }
        k = k + 1;
    }
    true
}

/// Whether `stem` is an escaped file stem, matching
/// `^_?[a-z0-9]+(-_?[a-z0-9]+)*(__[0-9a-f]{8})?_?$`.
pub fn is_escaped_stem(stem: &str) -> (r: bool)
    ensures
        r == escaped_stem(stem@),
{
    let cs = chars_of(stem);
    let mut n: usize = cs.len();
    if n > 0 && cs[n - 1] == '_' {
        n = n - 1;
    }
    let ghost a = strip_trailing_underscore(stem@);
    assert(a =~= cs@.take(n as int));
    if has_hash_suffix(&cs, n) {
        n = n - 10;
    }
    let ghost b = strip_hash_suffix(a);
    assert(b =~= cs@.take(n as int));
    if n == 0 {
        return false;
    }
    let mut i: usize = 0;
    while i < n
        invariant
            i <= n,
            n <= cs@.len(),
            b == cs@.take(n as int),
            b == strip_hash_suffix(strip_trailing_underscore(stem@)),
            forall|j: int| 0 <= j < i ==> #[trigger] body_char_ok(b, j),
        decreases n - i,
    {
        if !char_ok_at(&cs, n, i) {
            return false;
        }
        i = i + 1;
    }
    true
}

// ---------------------------------------------------------------------------
// What the escape produces is an escaped stem
// ---------------------------------------------------------------------------

/// A stem piece is `_?[a-z0-9]+` for a valid segment.
pub open spec fn piece_shaped(p: Seq<char>) -> bool {
    &&& p.len() > 0
    &&& is_lower_alnum(p.last())
    &&& forall|j: int|
        0 <= j < p.len() ==> (is_lower_alnum(#[trigger] p[j]) || (j == 0 && p[j] == '_'))
}

proof fn lemma_stem_piece_shaped(s: SegmentView)
    requires
        s.text.len() > 0,
        forall|i: int| 0 <= i < s.text.len() ==> is_lower_alnum(#[trigger] s.text[i]),
    ensures
        piece_shaped(stem_piece(s)),
{
    let p = stem_piece(s);
    if s.initialism {
        assert forall|j: int| 0 <= j < p.len() implies (is_lower_alnum(#[trigger] p[j]) || (j
            == 0 && p[j] == '_')) by {
            if j > 0 {
                assert(p[j] == s.text[j - 1]);
            }
        }
        assert(p.last() == s.text.last());
        assert(s.text.last() == s.text[s.text.len() - 1]);
    } else {
        assert(p.last() == s.text[s.text.len() - 1]);
    }
}

/// Joining `_?[a-z0-9]+` pieces with `-` gives a stem body.
proof fn lemma_join_pieces_body(ps: Seq<Seq<char>>)
    requires
        ps.len() > 0,
        forall|i: int| 0 <= i < ps.len() ==> piece_shaped(#[trigger] ps[i]),
    ensures
        stem_body(join(ps, seq!['-'])),
        is_lower_alnum(join(ps, seq!['-']).last()),
    decreases ps.len(),
{
    let b = join(ps, seq!['-']);
    if ps.len() == 1 {
        let p = ps[0];
        assert(piece_shaped(p));
        assert(b == p);
        assert forall|i: int| 0 <= i < b.len() implies #[trigger] body_char_ok(b, i) by {
            if !is_lower_alnum(b[i]) {
                assert(i == 0 && b[i] == '_');
                if b.len() == 1 {
                    assert(b.last() == b[0]);
                }
                assert(is_lower_alnum(p[1]));
            }
        }
    } else {
        let init = ps.drop_last();
        assert forall|i: int| 0 <= i < init.len() implies piece_shaped(#[trigger] init[i]) by {
            assert(init[i] == ps[i]);
        }
        lemma_join_pieces_body(init);
        let x = join(init, seq!['-']);
        let p = ps.last();
        assert(piece_shaped(ps[ps.len() - 1]));
        assert(b == x + seq!['-'] + p);
        let m = x.len() as int;
        assert(x.last() == x[m - 1]);
        assert forall|i: int| 0 <= i < b.len() implies #[trigger] body_char_ok(b, i) by {
            if i < m {
                assert(b[i] == x[i]);
                assert(body_char_ok(x, i));
                if i + 1 < m {
                    assert(b[i + 1] == x[i + 1]);
                }
                if i > 0 {
                    assert(b[i - 1] == x[i - 1]);
                }
            } else if i == m {
                assert(b[i] == '-');
                assert(b[i + 1] == p[0]);
                assert(is_lower_alnum(p[0]) || p[0] == '_');
            } else {
                let j = i - m - 1;
                assert(b[i] == p[j]);
                if !is_lower_alnum(p[j]) {
                    assert(j == 0);
                    assert(b[i - 1] == '-');
                    if p.len() == 1 {
                        assert(p.last() == p[0]);
                    }
                    assert(b[i + 1] == p[1]);
                }
            }
        }
        assert(b.last() == p.last());
    }
}

/// A stem body never ends in a hash suffix: its `_` is always followed by a letter or digit.
proof fn lemma_body_no_hash(b: Seq<char>)
    requires
        stem_body(b),
    ensures
        !hash_suffix(b),
{
    if b.len() >= 10 && b[b.len() - 10] == '_' {
        assert(body_char_ok(b, b.len() - 10));
    }
}

/// A prefix of a stem body that ends in a letter or digit is a stem body.
proof fn lemma_body_prefix(b: Seq<char>, k: int)
    requires
        stem_body(b),
        0 < k <= b.len(),
        is_lower_alnum(b[k - 1]),
    ensures
        stem_body(b.take(k)),
{
    let t = b.take(k);
    assert forall|i: int| 0 <= i < t.len() implies #[trigger] body_char_ok(t, i) by {
        assert(body_char_ok(b, i));
        assert(t[i] == b[i]);
        if i + 1 < k {
            assert(t[i + 1] == b[i + 1]);
        }
        if i > 0 {
            assert(t[i - 1] == b[i - 1]);
        }
    }
}

/// The joined stem of a valid, non-empty name is a stem body ending in a letter or digit.
proof fn lemma_joined_stem_body(n: Seq<SegmentView>)
    requires
        valid_name(n),
        n.len() > 0,
    ensures
        stem_body(joined_stem(n)),
        is_lower_alnum(joined_stem(n).last()),
{
    let ps = n.map_values(|s: SegmentView| stem_piece(s));
    assert forall|i: int| 0 <= i < ps.len() implies piece_shaped(#[trigger] ps[i]) by {
        assert(ps[i] == stem_piece(n[i]));
        let t = n[i].text;
        assert forall|j: int| 0 <= j < t.len() implies is_lower_alnum(#[trigger] t[j]) by {
            assert(crate::text::all_lower_alnum(t));
        }
        lemma_stem_piece_shaped(n[i]);
    }
    lemma_join_pieces_body(ps);
}

/// The file stem the escape gives a valid, non-empty name is an escaped stem:
/// `is_escaped_stem(&file_stem(n))` holds.
pub proof fn lemma_file_stem_is_escaped(n: Seq<SegmentView>)
    requires
        valid_name(n),
        n.len() > 0,
    ensures
        escaped_stem(file_stem_of(n)),
{
    lemma_joined_stem_body(n);
    let j = joined_stem(n);
    assert(j.last() == j[j.len() - 1]);
    if reserved_device(lower_seq(j)) {
        assert(file_stem_of(n).drop_last() =~= j);
    }
    assert(strip_trailing_underscore(file_stem_of(n)) == j);
    lemma_body_no_hash(j);
}

/// A cut that keeps at least one character of a valid, non-empty name's file stem is an
/// escaped stem: the kept prefix, `__`, and any eight lowercase hex digits, which is what
/// `truncate_stem(&file_stem(n), available)` answers.
pub proof fn lemma_cut_stem_is_escaped(n: Seq<SegmentView>, available: int, h: Seq<char>)
    requires
        valid_name(n),
        n.len() > 0,
        available >= 11,
        kept_prefix(file_stem_of(n), available).len() > 0,
        h.len() == 8,
        forall|q: int| 0 <= q < 8 ==> is_lower_hex(#[trigger] h[q]),
    ensures
        escaped_stem(kept_prefix(file_stem_of(n), available) + seq!['_', '_'] + h),
{
    let e = file_stem_of(n);
    let j = joined_stem(n);
    lemma_joined_stem_body(n);
    let keep = available - 10;
    let cut = if keep < e.len() {
        e.take(keep)
    } else {
        e
    };
    let kept = kept_prefix(e, available);
    assert(kept == trim_end_separators(cut));
    lemma_trim_end_separators(cut);
    let k = kept.len() as int;
    assert(cut.take(k) == kept);
    assert(kept.last() == kept[k - 1]);
    assert(kept[k - 1] == cut[k - 1]);
    assert(cut[k - 1] == e[k - 1]);
    // `kept` lies inside the joined stem: the device escape's `_` would have been trimmed.
    if reserved_device(lower_seq(j)) {
        assert(e == j.push('_'));
        if k == e.len() {
            assert(e[k - 1] == '_');
        }
    }
    assert(k <= j.len());
    assert(e[k - 1] == j[k - 1]);
    assert(body_char_ok(j, k - 1));
    assert(is_lower_alnum(j[k - 1]));
    lemma_body_prefix(j, k);
    assert(kept =~= j.take(k)) by {
        assert forall|i: int| 0 <= i < k implies kept[i] == j[i] by {
            assert(kept[i] == cut[i]);
            assert(cut[i] == e[i]);
        }
    }
    let t = kept + seq!['_', '_'] + h;
    assert(t.last() == h[7]);
    assert(is_lower_hex(h[7]));
    assert(strip_trailing_underscore(t) == t);
    assert(hash_suffix(t)) by {
        assert(t[t.len() - 10] == '_');
        assert(t[t.len() - 9] == '_');
        assert forall|q: int| t.len() - 8 <= q < t.len() implies is_lower_hex(#[trigger] t[q]) by {
            assert(t[q] == h[q - (t.len() - 8)]);
        }
    }
    assert(strip_hash_suffix(t) =~= kept);
}

// ---------------------------------------------------------------------------
// The distribution manifest's kind
// ---------------------------------------------------------------------------

/// Which of the three distributions a tree holds, as the manifest names it.
#[derive(Debug, Clone, Copy, PartialEq, Eq, Structural)]
pub enum DistributionKind {
    Library,
    Specs,
    Application,
}

pub open spec fn distribution_kind_spelling(k: DistributionKind) -> Seq<char> {
    match k {
        DistributionKind::Library => "Library"@,
        DistributionKind::Specs => "Specs"@,
        DistributionKind::Application => "Application"@,
    }
}

pub open spec fn distribution_kind_named(text: Seq<char>) -> Option<DistributionKind> {
    if text == "Library"@ {
        Some(DistributionKind::Library)
    } else if text == "Specs"@ {
        Some(DistributionKind::Specs)
    } else if text == "Application"@ {
        Some(DistributionKind::Application)
    } else {
        None
    }
}

impl DistributionKind {
    /// The kind's one wire spelling.
    pub fn as_str(self) -> (r: &'static str)
        ensures
            r@ == distribution_kind_spelling(self),
    {
        match self {
            DistributionKind::Library => "Library",
            DistributionKind::Specs => "Specs",
            DistributionKind::Application => "Application",
        }
    }

    /// The kind a manifest's `distribution` string names, or `None` if it names none.
    pub fn parse(text: &str) -> (r: Option<DistributionKind>)
        ensures
            r == distribution_kind_named(text@),
    {
        if str_eq(text, "Library") {
            Some(DistributionKind::Library)
        } else if str_eq(text, "Specs") {
            Some(DistributionKind::Specs)
        } else if str_eq(text, "Application") {
            Some(DistributionKind::Application)
        } else {
            None
        }
    }
}

/// Every kind reads back from its spelling: `DistributionKind::parse(k.as_str())` is `Some(k)`.
pub proof fn lemma_distribution_kind_roundtrip(k: DistributionKind)
    ensures
        distribution_kind_named(distribution_kind_spelling(k)) == Some(k),
{
    reveal_strlit("Library");
    reveal_strlit("Specs");
    reveal_strlit("Application");
    assert("Library"@.len() == 7 && "Specs"@.len() == 5 && "Application"@.len() == 11);
    match k {
        DistributionKind::Library => {},
        DistributionKind::Specs => {},
        DistributionKind::Application => {},
    }
}

/// Which of the two object styles a module manifest's `types` and `values` are read as.
#[derive(Debug, Clone, Copy, PartialEq, Eq, Structural)]
pub enum ExpectedEntries {
    Definitions,
    Specifications,
}

/// What a node file holds: a definition, or the public face of one.
#[derive(Debug, Clone, PartialEq)]
pub enum NodeFileBody<D, S> {
    Def(D),
    Spec(S),
}

/// One type's file, `<stem>.type`: its format version, its name, and a definition or the
/// public face of one.
#[derive(Debug, PartialEq)]
pub struct TypeDefinitionFile {
    pub format_version: FormatVersion,
    pub name: Name,
    pub body: NodeFileBody<AccessControlled<Documented<TypeDefinition>>, Documented<TypeSpecification>>,
}

} // verus!
