//! Storage-independent addresses for semantic IR nodes, written as canonical URIs.
//!
//! The authority `ir` identifies a node in a normalized distribution, not the file
//! that happened to contain it. An address has exactly one spelling: [`NodeUri::parse`]
//! accepts only that spelling, and [`NodeUri::new`] accepts only an address whose
//! spelling parses back to it.

pub use crate::format_version::ReleaseTriplet as IrFormatVersion;
use crate::format_version::{release_spelling, ReleaseTriplet};
use crate::json::{canonical_json, strip_nonsemantic, strip_view, write_canonical_json, JsonValue};
use crate::naming::name::{
    canonical_in, canonical_style, parse_canonical, valid_name, Name, SegmentView,
};
use crate::naming::package_name::PackageName;
use crate::naming::path::{parse_path, path_canonical, valid_path, Path};
use crate::naming::stem::{hex_chars, hex_of, is_lower_hex, lemma_hex_of, sha256, sha256_digest};
use crate::text::{
    all_digits, chars_of, contains_char, decimal, decimal_of, digits_value, find_char,
    first_index, is_lower, is_lower_alnum, join, join_chars, parse_digits, push_chars,
    push_str_chars, seq_eq, split, split_chars, starts_with, str_eq, string_of, subrange, views,
};
use vstd::prelude::*;
use vstd::utf8::{decode_utf8, encode_utf8, valid_utf8};

verus! {

// ---------------------------------------------------------------------------
// Errors
// ---------------------------------------------------------------------------

/// A syntactically invalid semantic node URI.
#[derive(Debug, Clone, PartialEq, Eq)]
pub enum NodeUriError {
    /// An unpinned positional path can silently retarget without a guard.
    MissingGuard,
    /// The input cannot be interpreted as one canonical node address.
    Invalid(String),
    /// A caller tried to fingerprint a non-positional step or an unserializable node.
    InvalidFingerprint(String),
}

/// An error's content as plain values.
pub enum UriErrorView {
    MissingGuard,
    Invalid(Seq<char>),
    InvalidFingerprint(Seq<char>),
}

impl View for NodeUriError {
    type V = UriErrorView;

    open spec fn view(&self) -> UriErrorView {
        match self {
            NodeUriError::MissingGuard => UriErrorView::MissingGuard,
            NodeUriError::Invalid(m) => UriErrorView::Invalid(m@),
            NodeUriError::InvalidFingerprint(m) => UriErrorView::InvalidFingerprint(m@),
        }
    }
}

pub open spec fn uri_error_message(e: UriErrorView) -> Seq<char> {
    match e {
        UriErrorView::MissingGuard => "an unpinned indexed node address requires a guard"@,
        UriErrorView::Invalid(m) => "invalid node URI: "@ + m,
        UriErrorView::InvalidFingerprint(m) => "cannot fingerprint selected semantic child: "@ + m,
    }
}

impl NodeUriError {
    /// The error's message.
    pub fn message(&self) -> (r: String)
        ensures
            r@ == uri_error_message(self@),
    {
        match self {
            NodeUriError::MissingGuard => String::from_str(
                "an unpinned indexed node address requires a guard",
            ),
            NodeUriError::Invalid(m) => {
                let mut s = String::from_str("invalid node URI: ");
                s.append(m.as_str());
                s
            },
            NodeUriError::InvalidFingerprint(m) => {
                let mut s = String::from_str("cannot fingerprint selected semantic child: ");
                s.append(m.as_str());
                s
            },
        }
    }
}

fn invalid(message: &str) -> (r: NodeUriError)
    ensures
        r@ == UriErrorView::Invalid(message@),
{
    NodeUriError::Invalid(message.to_owned())
}

// ---------------------------------------------------------------------------
// SHA-256 digests
// ---------------------------------------------------------------------------

/// A lowercase SHA-256 digest in canonical hexadecimal form.
#[derive(Debug, Clone, PartialEq, Eq, Hash)]
pub struct Sha256Digest(String);

impl View for Sha256Digest {
    type V = Seq<char>;

    closed spec fn view(&self) -> Seq<char> {
        self.0@
    }
}

/// Sixty-four lowercase hex digits.
pub open spec fn lowercase_digest(h: Seq<char>) -> bool {
    h.len() == 64 && forall|i: int| 0 <= i < h.len() ==> is_lower_hex(#[trigger] h[i])
}

pub open spec fn digest_prefix() -> Seq<char> {
    seq!['s', 'h', 'a', '2', '5', '6', ':']
}

/// `sha256:` and the hex digits.
pub open spec fn digest_spelling(h: Seq<char>) -> Seq<char> {
    digest_prefix() + h
}

/// What [`Sha256Digest::parse`] answers: the hex digits, or why there are none.
pub open spec fn parse_digest(v: Seq<char>) -> Result<Seq<char>, UriErrorView> {
    if v.len() >= 7 && v.take(7) == digest_prefix() {
        if lowercase_digest(v.skip(7)) {
            Ok(v.skip(7))
        } else {
            Err(UriErrorView::Invalid("digest must have 64 lowercase hex digits"@))
        }
    } else {
        Err(UriErrorView::Invalid("digest must use sha256"@))
    }
}

fn lowercase_digest_in(h: &[char]) -> (r: bool)
    ensures
        r == lowercase_digest(h@),
{
    if h.len() != 64 {
        return false;
    }
    let mut i: usize = 0;
    while i < h.len()
        invariant
            i <= h.len(),
            forall|j: int| 0 <= j < i ==> is_lower_hex(#[trigger] h@[j]),
        decreases h.len() - i,
    {
        let c = h[i];
        if !(('0' <= c && c <= '9') || ('a' <= c && c <= 'f')) {
            return false;
        }
        i = i + 1;
    }
    true
}

impl Sha256Digest {
    /// Digest the exact bytes of an acquired immutable snapshot.
    pub fn from_bytes(bytes: &[u8]) -> (r: Sha256Digest)
        ensures
            r@ == hex_of(sha256_digest(bytes@)),
            lowercase_digest(r@),
    {
        let digest = sha256(bytes);
        proof {
            lemma_hex_of(digest@);
        }
        let hex = hex_chars(digest.as_slice());
        Sha256Digest(string_of(hex.as_slice()))
    }

    /// Parse `sha256:` followed by sixty-four lowercase hex digits.
    pub fn parse(value: &str) -> (r: Result<Sha256Digest, NodeUriError>)
        ensures
            match r {
                Ok(d) => parse_digest(value@) == Ok::<Seq<char>, UriErrorView>(d@),
                Err(e) => parse_digest(value@) == Err::<Seq<char>, UriErrorView>(e@),
            },
    {
        let cs = chars_of(value);
        let prefix = vec!['s', 'h', 'a', '2', '5', '6', ':'];
        assert(prefix@ =~= digest_prefix());
        if !starts_with(cs.as_slice(), prefix.as_slice()) {
            return Err(invalid("digest must use sha256"));
        }
        let hex = subrange(cs.as_slice(), 7, cs.len());
        assert(hex@ =~= value@.skip(7));
        if !lowercase_digest_in(hex.as_slice()) {
            return Err(invalid("digest must have 64 lowercase hex digits"));
        }
        Ok(Sha256Digest(string_of(hex.as_slice())))
    }

    /// The digest's hex digits.
    pub fn hex(&self) -> (r: &str)
        ensures
            r@ == self@,
    {
        self.0.as_str()
    }

    pub fn spelling_chars(&self) -> (r: Vec<char>)
        ensures
            r@ == digest_spelling(self@),
    {
        let mut out = vec!['s', 'h', 'a', '2', '5', '6', ':'];
        assert(out@ =~= digest_prefix());
        push_str_chars(&mut out, self.0.as_str());
        out
    }

    /// `sha256:` and the hex digits.
    pub fn to_string(&self) -> (r: String)
        ensures
            r@ == digest_spelling(self@),
    {
        let cs = self.spelling_chars();
        string_of(cs.as_slice())
    }

    pub fn duplicate(&self) -> (r: Sha256Digest)
        ensures
            r@ == self@,
    {
        Sha256Digest(self.0.clone())
    }

    pub fn same_as(&self, other: &Sha256Digest) -> (r: bool)
        ensures
            r == (self@ == other@),
    {
        str_eq(self.0.as_str(), other.0.as_str())
    }
}

// ---------------------------------------------------------------------------
// Percent-encoding of one path component
// ---------------------------------------------------------------------------

/// `A-Z a-z 0-9 - . _ ~`, the bytes a component carries as they are.
pub open spec fn unreserved(b: u8) -> bool {
    (48 <= b && b <= 57) || (65 <= b && b <= 90) || (97 <= b && b <= 122) || b == 45 || b == 46
        || b == 95 || b == 126
}

/// The uppercase hex digit of `d < 16`, as a byte.
pub open spec fn upper_hex(d: u8) -> u8 {
    if d < 10 {
        (48 + d) as u8
    } else {
        (55 + d) as u8
    }
}

/// A byte as it stands in a component: itself, or `%` and two uppercase hex digits.
pub open spec fn escape_byte(b: u8) -> Seq<u8> {
    if unreserved(b) {
        seq![b]
    } else {
        seq![37u8, upper_hex(b / 16), upper_hex(b % 16)]
    }
}

pub open spec fn percent_encode(bs: Seq<u8>) -> Seq<u8>
    decreases bs.len(),
{
    if bs.len() == 0 {
        Seq::<u8>::empty()
    } else {
        escape_byte(bs[0]) + percent_encode(bs.drop_first())
    }
}

/// ASCII bytes read as characters.
pub open spec fn ascii_text(bs: Seq<u8>) -> Seq<char> {
    bs.map_values(|b: u8| b as char)
}

/// A string as one percent-encoded path component of its UTF-8 bytes.
pub open spec fn encoded_component(s: Seq<char>) -> Seq<char> {
    ascii_text(percent_encode(encode_utf8(s)))
}

pub proof fn lemma_percent_encode_push(bs: Seq<u8>, b: u8)
    ensures
        percent_encode(bs.push(b)) == percent_encode(bs) + escape_byte(b),
    decreases bs.len(),
{
    if bs.len() == 0 {
        assert(bs.push(b)[0] == b);
        assert(percent_encode(Seq::<u8>::empty()) =~= Seq::<u8>::empty());
        assert(bs.push(b).drop_first() =~= Seq::<u8>::empty());
        assert(percent_encode(bs.push(b)) =~= escape_byte(b) + Seq::<u8>::empty());
        assert(percent_encode(bs) + escape_byte(b) =~= escape_byte(b));
    } else {
        lemma_percent_encode_push(bs.drop_first(), b);
        assert(bs.push(b).drop_first() =~= bs.drop_first().push(b));
        assert(bs.push(b)[0] == bs[0]);
        assert(percent_encode(bs.push(b)) =~= escape_byte(bs[0]) + (percent_encode(
            bs.drop_first(),
        ) + escape_byte(b)));
    }
}

fn unreserved_byte(b: u8) -> (r: bool)
    ensures
        r == unreserved(b),
{
    (48 <= b && b <= 57) || (65 <= b && b <= 90) || (97 <= b && b <= 122) || b == 45 || b == 46
        || b == 95 || b == 126
}

fn upper_hex_char(d: u8) -> (c: char)
    requires
        d < 16,
    ensures
        c == (upper_hex(d) as char),
{
    if d < 10 {
        (48 + d) as char
    } else {
        (55 + d) as char
    }
}

/// `value` as one percent-encoded path component.
fn encode_component(value: &str) -> (r: Vec<char>)
    ensures
        r@ == encoded_component(value@),
{
    let bytes = value.as_bytes();
    let mut out: Vec<char> = Vec::new();
    let mut i: usize = 0;
    assert(bytes@.take(0) =~= Seq::<u8>::empty());
    assert(out@ =~= ascii_text(percent_encode(Seq::<u8>::empty())));
    while i < bytes.len()
        invariant
            i <= bytes@.len(),
            out@ == ascii_text(percent_encode(bytes@.take(i as int))),
        decreases bytes.len() - i,
    {
        let b = bytes[i];
        let ghost before = out@;
        proof {
            lemma_percent_encode_push(bytes@.take(i as int), b);
            assert(bytes@.take(i as int + 1) =~= bytes@.take(i as int).push(b));
        }
        if unreserved_byte(b) {
            out.push(b as char);
        } else {
            out.push('%');
            out.push(upper_hex_char(b / 16));
            out.push(upper_hex_char(b % 16));
        }
        assert(out@ =~= ascii_text(percent_encode(bytes@.take(i as int + 1))));
        i = i + 1;
    }
    assert(bytes@.take(bytes@.len() as int) =~= bytes@);
    out
}

/// The value of an uppercase hex digit byte.
pub open spec fn hex_value(b: u8) -> Option<u8> {
    if 48 <= b && b <= 57 {
        Some((b - 48) as u8)
    } else if 65 <= b && b <= 70 {
        Some((b - 55) as u8)
    } else {
        None
    }
}

pub open spec fn prefixed(p: Seq<u8>, r: Result<Seq<u8>, UriErrorView>) -> Result<
    Seq<u8>,
    UriErrorView,
> {
    match r {
        Ok(t) => Ok(p + t),
        Err(e) => Err(e),
    }
}

/// The bytes a percent-encoded component spells, or why it spells none.
pub open spec fn percent_decode(bs: Seq<u8>) -> Result<Seq<u8>, UriErrorView>
    decreases bs.len(),
{
    if bs.len() == 0 {
        Ok(Seq::<u8>::empty())
    } else if bs[0] == 37 {
        if bs.len() < 3 {
            Err(UriErrorView::Invalid("truncated percent escape"@))
        } else {
            match (hex_value(bs[1]), hex_value(bs[2])) {
                (Some(h), Some(l)) => prefixed(seq![(h * 16 + l) as u8], percent_decode(bs.skip(3))),
                _ => Err(UriErrorView::Invalid("invalid percent escape"@)),
            }
        }
    } else if bs[0] >= 128 {
        Err(UriErrorView::Invalid("raw non-ASCII URI component"@))
    } else {
        prefixed(seq![bs[0]], percent_decode(bs.skip(1)))
    }
}

/// The string a path component spells.
pub open spec fn decoded_component(s: Seq<char>) -> Result<Seq<char>, UriErrorView> {
    match percent_decode(encode_utf8(s)) {
        Err(e) => Err(e),
        Ok(b) => if valid_utf8(b) {
            Ok(decode_utf8(b))
        } else {
            Err(UriErrorView::Invalid("invalid UTF-8 escape"@))
        },
    }
}

/// `String::from_utf8`: the string `bytes` encode, when they are valid UTF-8.
#[verifier::external_body]
fn string_from_utf8(bytes: Vec<u8>) -> (r: Option<String>)
    ensures
        r is Some <==> valid_utf8(bytes@),
        r matches Some(s) ==> s@ == decode_utf8(bytes@),
{
    String::from_utf8(bytes).ok()
}

fn hex_value_of(b: u8) -> (r: Option<u8>)
    ensures
        r == hex_value(b),
{
    if 48 <= b && b <= 57 {
        Some(b - 48)
    } else if 65 <= b && b <= 70 {
        Some(b - 55)
    } else {
        None
    }
}

/// The string the path component `value` spells.
fn decode_component(value: &[char]) -> (r: Result<Vec<char>, NodeUriError>)
    ensures
        match r {
            Ok(v) => decoded_component(value@) == Ok::<Seq<char>, UriErrorView>(v@),
            Err(e) => decoded_component(value@) == Err::<Seq<char>, UriErrorView>(e@),
        },
{
    let text = string_of(value);
    let bytes = text.as_str().as_bytes();
    let ghost all = bytes@;
    assert(all == encode_utf8(value@));
    let n = bytes.len();
    let mut out: Vec<u8> = Vec::new();
    let mut i: usize = 0;
    assert(all.skip(0) =~= all);
    assert(Seq::<u8>::empty() + Seq::<u8>::empty() =~= Seq::<u8>::empty());
    proof {
        match percent_decode(all) {
            Ok(t) => {
                assert(out@ + t =~= t);
            },
            Err(e) => {},
        }
    }
    while i < n
        invariant
            i <= n,
            n == all.len(),
            all == bytes@,
            all == encode_utf8(value@),
            percent_decode(all) == prefixed(out@, percent_decode(all.skip(i as int))),
        decreases n - i,
    {
        let b = bytes[i];
        let ghost rest = all.skip(i as int);
        assert(rest[0] == b);
        if b == 37 {
            if n - i < 3 {
                assert(percent_decode(rest) == Err::<Seq<u8>, UriErrorView>(
                    UriErrorView::Invalid("truncated percent escape"@),
                ));
                return Err(invalid("truncated percent escape"));
            }
            let hi = hex_value_of(bytes[i + 1]);
            let lo = hex_value_of(bytes[i + 2]);
            assert(rest[1] == bytes@[i as int + 1]);
            assert(rest[2] == bytes@[i as int + 2]);
            match (hi, lo) {
                (Some(h), Some(l)) => {
                    let ghost before = out@;
                    let x: u8 = h * 16 + l;
                    out.push(x);
                    proof {
                        assert(rest.skip(3) =~= all.skip(i as int + 3));
                        match percent_decode(all.skip(i as int + 3)) {
                            Ok(t) => {
                                assert(before + (seq![x] + t) =~= out@ + t);
                            },
                            Err(e) => {},
                        }
                    }
                    i = i + 3;
                },
                _ => {
                    return Err(invalid("invalid percent escape"));
                },
            }
        } else if b >= 128 {
            assert(percent_decode(rest) == Err::<Seq<u8>, UriErrorView>(
                UriErrorView::Invalid("raw non-ASCII URI component"@),
            ));
            return Err(invalid("raw non-ASCII URI component"));
        } else {
            let ghost before = out@;
            out.push(b);
            proof {
                assert(rest.skip(1) =~= all.skip(i as int + 1));
                match percent_decode(all.skip(i as int + 1)) {
                    Ok(t) => {
                        assert(before + (seq![b] + t) =~= out@ + t);
                    },
                    Err(e) => {},
                }
            }
            i = i + 1;
        }
    }
    assert(all.skip(n as int) =~= Seq::<u8>::empty());
    assert(out@ + Seq::<u8>::empty() =~= out@);
    let ghost decoded = out@;
    match string_from_utf8(out) {
        Some(s) => Ok(chars_of(s.as_str())),
        None => Err(invalid("invalid UTF-8 escape")),
    }
}


/// A fixed word of the node URI grammar.
#[derive(Debug, Clone, Copy, PartialEq, Eq, Structural)]
pub enum Keyword {
    Distribution,
    Package,
    EntryPoint,
    Dependency,
    Module,
    Type,
    Value,
    TypeExp,
    Body,
    Input,
    InputAnnotation,
    Output,
    Derived,
    BaseType,
    Incomplete,
    PartialType,
    Constructor,
    Argument,
    Record,
    Field,
    ExtensibleRecord,
    Function,
    Parameter,
    ResultRole,
    Reference,
    Apply,
    Subject,
    Destructure,
    Pattern,
    If,
    Condition,
    Then,
    Else,
    Lambda,
    Let,
    Definition,
    List,
    Element,
    PatternMatch,
    Tuple,
    Case,
    Update,
    AsPattern,
    TuplePattern,
    ConstructorPattern,
    HeadTail,
    Head,
    Tail,
    External,
    Fallback,
    PartialBody,
    Hole,
    ExpectedType,
}

/// How a keyword is spelled in a URI.
pub open spec fn keyword_spelling(k: Keyword) -> Seq<char> {
    match k {
        Keyword::Distribution => seq!['d', 'i', 's', 't', 'r', 'i', 'b', 'u', 't', 'i', 'o', 'n'],
        Keyword::Package => seq!['p', 'a', 'c', 'k', 'a', 'g', 'e'],
        Keyword::EntryPoint => seq!['e', 'n', 't', 'r', 'y', '-', 'p', 'o', 'i', 'n', 't'],
        Keyword::Dependency => seq!['d', 'e', 'p', 'e', 'n', 'd', 'e', 'n', 'c', 'y'],
        Keyword::Module => seq!['m', 'o', 'd', 'u', 'l', 'e'],
        Keyword::Type => seq!['t', 'y', 'p', 'e'],
        Keyword::Value => seq!['v', 'a', 'l', 'u', 'e'],
        Keyword::TypeExp => seq!['t', 'y', 'p', 'e', '-', 'e', 'x', 'p'],
        Keyword::Body => seq!['b', 'o', 'd', 'y'],
        Keyword::Input => seq!['i', 'n', 'p', 'u', 't'],
        Keyword::InputAnnotation => seq!['i', 'n', 'p', 'u', 't', '-', 'a', 'n', 'n', 'o', 't', 'a', 't', 'i', 'o', 'n'],
        Keyword::Output => seq!['o', 'u', 't', 'p', 'u', 't'],
        Keyword::Derived => seq!['d', 'e', 'r', 'i', 'v', 'e', 'd'],
        Keyword::BaseType => seq!['b', 'a', 's', 'e', '-', 't', 'y', 'p', 'e'],
        Keyword::Incomplete => seq!['i', 'n', 'c', 'o', 'm', 'p', 'l', 'e', 't', 'e'],
        Keyword::PartialType => seq!['p', 'a', 'r', 't', 'i', 'a', 'l', '-', 't', 'y', 'p', 'e'],
        Keyword::Constructor => seq!['c', 'o', 'n', 's', 't', 'r', 'u', 'c', 't', 'o', 'r'],
        Keyword::Argument => seq!['a', 'r', 'g', 'u', 'm', 'e', 'n', 't'],
        Keyword::Record => seq!['r', 'e', 'c', 'o', 'r', 'd'],
        Keyword::Field => seq!['f', 'i', 'e', 'l', 'd'],
        Keyword::ExtensibleRecord => seq!['e', 'x', 't', 'e', 'n', 's', 'i', 'b', 'l', 'e', '-', 'r', 'e', 'c', 'o', 'r', 'd'],
        Keyword::Function => seq!['f', 'u', 'n', 'c', 't', 'i', 'o', 'n'],
        Keyword::Parameter => seq!['p', 'a', 'r', 'a', 'm', 'e', 't', 'e', 'r'],
        Keyword::ResultRole => seq!['r', 'e', 's', 'u', 'l', 't'],
        Keyword::Reference => seq!['r', 'e', 'f', 'e', 'r', 'e', 'n', 'c', 'e'],
        Keyword::Apply => seq!['a', 'p', 'p', 'l', 'y'],
        Keyword::Subject => seq!['s', 'u', 'b', 'j', 'e', 'c', 't'],
        Keyword::Destructure => seq!['d', 'e', 's', 't', 'r', 'u', 'c', 't', 'u', 'r', 'e'],
        Keyword::Pattern => seq!['p', 'a', 't', 't', 'e', 'r', 'n'],
        Keyword::If => seq!['i', 'f'],
        Keyword::Condition => seq!['c', 'o', 'n', 'd', 'i', 't', 'i', 'o', 'n'],
        Keyword::Then => seq!['t', 'h', 'e', 'n'],
        Keyword::Else => seq!['e', 'l', 's', 'e'],
        Keyword::Lambda => seq!['l', 'a', 'm', 'b', 'd', 'a'],
        Keyword::Let => seq!['l', 'e', 't'],
        Keyword::Definition => seq!['d', 'e', 'f', 'i', 'n', 'i', 't', 'i', 'o', 'n'],
        Keyword::List => seq!['l', 'i', 's', 't'],
        Keyword::Element => seq!['e', 'l', 'e', 'm', 'e', 'n', 't'],
        Keyword::PatternMatch => seq!['p', 'a', 't', 't', 'e', 'r', 'n', '-', 'm', 'a', 't', 'c', 'h'],
        Keyword::Tuple => seq!['t', 'u', 'p', 'l', 'e'],
        Keyword::Case => seq!['c', 'a', 's', 'e'],
        Keyword::Update => seq!['u', 'p', 'd', 'a', 't', 'e'],
        Keyword::AsPattern => seq!['a', 's', '-', 'p', 'a', 't', 't', 'e', 'r', 'n'],
        Keyword::TuplePattern => seq!['t', 'u', 'p', 'l', 'e', '-', 'p', 'a', 't', 't', 'e', 'r', 'n'],
        Keyword::ConstructorPattern => seq!['c', 'o', 'n', 's', 't', 'r', 'u', 'c', 't', 'o', 'r', '-', 'p', 'a', 't', 't', 'e', 'r', 'n'],
        Keyword::HeadTail => seq!['h', 'e', 'a', 'd', '-', 't', 'a', 'i', 'l'],
        Keyword::Head => seq!['h', 'e', 'a', 'd'],
        Keyword::Tail => seq!['t', 'a', 'i', 'l'],
        Keyword::External => seq!['e', 'x', 't', 'e', 'r', 'n', 'a', 'l'],
        Keyword::Fallback => seq!['f', 'a', 'l', 'l', 'b', 'a', 'c', 'k'],
        Keyword::PartialBody => seq!['p', 'a', 'r', 't', 'i', 'a', 'l', '-', 'b', 'o', 'd', 'y'],
        Keyword::Hole => seq!['h', 'o', 'l', 'e'],
        Keyword::ExpectedType => seq!['e', 'x', 'p', 'e', 'c', 't', 'e', 'd', '-', 't', 'y', 'p', 'e'],
    }
}

pub open spec fn keyword_of_length_2(s: Seq<char>) -> Option<Keyword> {
    if s == keyword_spelling(Keyword::If) {
        Some(Keyword::If)
    } else {
        None
    }
}

pub open spec fn keyword_of_length_3(s: Seq<char>) -> Option<Keyword> {
    if s == keyword_spelling(Keyword::Let) {
        Some(Keyword::Let)
    } else {
        None
    }
}

pub open spec fn keyword_of_length_4(s: Seq<char>) -> Option<Keyword> {
    if s == keyword_spelling(Keyword::Type) {
        Some(Keyword::Type)
    } else if s == keyword_spelling(Keyword::Body) {
        Some(Keyword::Body)
    } else if s == keyword_spelling(Keyword::Then) {
        Some(Keyword::Then)
    } else if s == keyword_spelling(Keyword::Else) {
        Some(Keyword::Else)
    } else if s == keyword_spelling(Keyword::List) {
        Some(Keyword::List)
    } else if s == keyword_spelling(Keyword::Case) {
        Some(Keyword::Case)
    } else if s == keyword_spelling(Keyword::Head) {
        Some(Keyword::Head)
    } else if s == keyword_spelling(Keyword::Tail) {
        Some(Keyword::Tail)
    } else if s == keyword_spelling(Keyword::Hole) {
        Some(Keyword::Hole)
    } else {
        None
    }
}

pub open spec fn keyword_of_length_5(s: Seq<char>) -> Option<Keyword> {
    if s == keyword_spelling(Keyword::Value) {
        Some(Keyword::Value)
    } else if s == keyword_spelling(Keyword::Input) {
        Some(Keyword::Input)
    } else if s == keyword_spelling(Keyword::Field) {
        Some(Keyword::Field)
    } else if s == keyword_spelling(Keyword::Apply) {
        Some(Keyword::Apply)
    } else if s == keyword_spelling(Keyword::Tuple) {
        Some(Keyword::Tuple)
    } else {
        None
    }
}

pub open spec fn keyword_of_length_6(s: Seq<char>) -> Option<Keyword> {
    if s == keyword_spelling(Keyword::Module) {
        Some(Keyword::Module)
    } else if s == keyword_spelling(Keyword::Output) {
        Some(Keyword::Output)
    } else if s == keyword_spelling(Keyword::Record) {
        Some(Keyword::Record)
    } else if s == keyword_spelling(Keyword::ResultRole) {
        Some(Keyword::ResultRole)
    } else if s == keyword_spelling(Keyword::Lambda) {
        Some(Keyword::Lambda)
    } else if s == keyword_spelling(Keyword::Update) {
        Some(Keyword::Update)
    } else {
        None
    }
}

pub open spec fn keyword_of_length_7(s: Seq<char>) -> Option<Keyword> {
    if s == keyword_spelling(Keyword::Package) {
        Some(Keyword::Package)
    } else if s == keyword_spelling(Keyword::Derived) {
        Some(Keyword::Derived)
    } else if s == keyword_spelling(Keyword::Subject) {
        Some(Keyword::Subject)
    } else if s == keyword_spelling(Keyword::Pattern) {
        Some(Keyword::Pattern)
    } else if s == keyword_spelling(Keyword::Element) {
        Some(Keyword::Element)
    } else {
        None
    }
}

pub open spec fn keyword_of_length_8(s: Seq<char>) -> Option<Keyword> {
    if s == keyword_spelling(Keyword::TypeExp) {
        Some(Keyword::TypeExp)
    } else if s == keyword_spelling(Keyword::Argument) {
        Some(Keyword::Argument)
    } else if s == keyword_spelling(Keyword::Function) {
        Some(Keyword::Function)
    } else if s == keyword_spelling(Keyword::External) {
        Some(Keyword::External)
    } else if s == keyword_spelling(Keyword::Fallback) {
        Some(Keyword::Fallback)
    } else {
        None
    }
}

pub open spec fn keyword_of_length_9(s: Seq<char>) -> Option<Keyword> {
    if s == keyword_spelling(Keyword::BaseType) {
        Some(Keyword::BaseType)
    } else if s == keyword_spelling(Keyword::Parameter) {
        Some(Keyword::Parameter)
    } else if s == keyword_spelling(Keyword::Reference) {
        Some(Keyword::Reference)
    } else if s == keyword_spelling(Keyword::Condition) {
        Some(Keyword::Condition)
    } else if s == keyword_spelling(Keyword::HeadTail) {
        Some(Keyword::HeadTail)
    } else {
        None
    }
}

pub open spec fn keyword_of_length_10(s: Seq<char>) -> Option<Keyword> {
    if s == keyword_spelling(Keyword::Dependency) {
        Some(Keyword::Dependency)
    } else if s == keyword_spelling(Keyword::Incomplete) {
        Some(Keyword::Incomplete)
    } else if s == keyword_spelling(Keyword::Definition) {
        Some(Keyword::Definition)
    } else if s == keyword_spelling(Keyword::AsPattern) {
        Some(Keyword::AsPattern)
    } else {
        None
    }
}

pub open spec fn keyword_of_length_11(s: Seq<char>) -> Option<Keyword> {
    if s == keyword_spelling(Keyword::EntryPoint) {
        Some(Keyword::EntryPoint)
    } else if s == keyword_spelling(Keyword::Constructor) {
        Some(Keyword::Constructor)
    } else if s == keyword_spelling(Keyword::Destructure) {
        Some(Keyword::Destructure)
    } else {
        None
    }
}

pub open spec fn keyword_of_length_12(s: Seq<char>) -> Option<Keyword> {
    if s == keyword_spelling(Keyword::Distribution) {
        Some(Keyword::Distribution)
    } else if s == keyword_spelling(Keyword::PartialType) {
        Some(Keyword::PartialType)
    } else if s == keyword_spelling(Keyword::PartialBody) {
        Some(Keyword::PartialBody)
    } else {
        None
    }
}

pub open spec fn keyword_of_length_13(s: Seq<char>) -> Option<Keyword> {
    if s == keyword_spelling(Keyword::PatternMatch) {
        Some(Keyword::PatternMatch)
    } else if s == keyword_spelling(Keyword::TuplePattern) {
        Some(Keyword::TuplePattern)
    } else if s == keyword_spelling(Keyword::ExpectedType) {
        Some(Keyword::ExpectedType)
    } else {
        None
    }
}

pub open spec fn keyword_of_length_16(s: Seq<char>) -> Option<Keyword> {
    if s == keyword_spelling(Keyword::InputAnnotation) {
        Some(Keyword::InputAnnotation)
    } else {
        None
    }
}

pub open spec fn keyword_of_length_17(s: Seq<char>) -> Option<Keyword> {
    if s == keyword_spelling(Keyword::ExtensibleRecord) {
        Some(Keyword::ExtensibleRecord)
    } else {
        None
    }
}

pub open spec fn keyword_of_length_19(s: Seq<char>) -> Option<Keyword> {
    if s == keyword_spelling(Keyword::ConstructorPattern) {
        Some(Keyword::ConstructorPattern)
    } else {
        None
    }
}

/// The keyword `s` spells, if any.
pub open spec fn keyword_of(s: Seq<char>) -> Option<Keyword> {
    if s.len() == 2 {
        keyword_of_length_2(s)
    } else if s.len() == 3 {
        keyword_of_length_3(s)
    } else if s.len() == 4 {
        keyword_of_length_4(s)
    } else if s.len() == 5 {
        keyword_of_length_5(s)
    } else if s.len() == 6 {
        keyword_of_length_6(s)
    } else if s.len() == 7 {
        keyword_of_length_7(s)
    } else if s.len() == 8 {
        keyword_of_length_8(s)
    } else if s.len() == 9 {
        keyword_of_length_9(s)
    } else if s.len() == 10 {
        keyword_of_length_10(s)
    } else if s.len() == 11 {
        keyword_of_length_11(s)
    } else if s.len() == 12 {
        keyword_of_length_12(s)
    } else if s.len() == 13 {
        keyword_of_length_13(s)
    } else if s.len() == 16 {
        keyword_of_length_16(s)
    } else if s.len() == 17 {
        keyword_of_length_17(s)
    } else if s.len() == 19 {
        keyword_of_length_19(s)
    } else {
        None
    }
}

fn keyword_chars(k: Keyword) -> (r: Vec<char>)
    ensures
        r@ == keyword_spelling(k),
{
    let r = match k {
        Keyword::Distribution => vec!['d', 'i', 's', 't', 'r', 'i', 'b', 'u', 't', 'i', 'o', 'n'],
        Keyword::Package => vec!['p', 'a', 'c', 'k', 'a', 'g', 'e'],
        Keyword::EntryPoint => vec!['e', 'n', 't', 'r', 'y', '-', 'p', 'o', 'i', 'n', 't'],
        Keyword::Dependency => vec!['d', 'e', 'p', 'e', 'n', 'd', 'e', 'n', 'c', 'y'],
        Keyword::Module => vec!['m', 'o', 'd', 'u', 'l', 'e'],
        Keyword::Type => vec!['t', 'y', 'p', 'e'],
        Keyword::Value => vec!['v', 'a', 'l', 'u', 'e'],
        Keyword::TypeExp => vec!['t', 'y', 'p', 'e', '-', 'e', 'x', 'p'],
        Keyword::Body => vec!['b', 'o', 'd', 'y'],
        Keyword::Input => vec!['i', 'n', 'p', 'u', 't'],
        Keyword::InputAnnotation => vec!['i', 'n', 'p', 'u', 't', '-', 'a', 'n', 'n', 'o', 't', 'a', 't', 'i', 'o', 'n'],
        Keyword::Output => vec!['o', 'u', 't', 'p', 'u', 't'],
        Keyword::Derived => vec!['d', 'e', 'r', 'i', 'v', 'e', 'd'],
        Keyword::BaseType => vec!['b', 'a', 's', 'e', '-', 't', 'y', 'p', 'e'],
        Keyword::Incomplete => vec!['i', 'n', 'c', 'o', 'm', 'p', 'l', 'e', 't', 'e'],
        Keyword::PartialType => vec!['p', 'a', 'r', 't', 'i', 'a', 'l', '-', 't', 'y', 'p', 'e'],
        Keyword::Constructor => vec!['c', 'o', 'n', 's', 't', 'r', 'u', 'c', 't', 'o', 'r'],
        Keyword::Argument => vec!['a', 'r', 'g', 'u', 'm', 'e', 'n', 't'],
        Keyword::Record => vec!['r', 'e', 'c', 'o', 'r', 'd'],
        Keyword::Field => vec!['f', 'i', 'e', 'l', 'd'],
        Keyword::ExtensibleRecord => vec!['e', 'x', 't', 'e', 'n', 's', 'i', 'b', 'l', 'e', '-', 'r', 'e', 'c', 'o', 'r', 'd'],
        Keyword::Function => vec!['f', 'u', 'n', 'c', 't', 'i', 'o', 'n'],
        Keyword::Parameter => vec!['p', 'a', 'r', 'a', 'm', 'e', 't', 'e', 'r'],
        Keyword::ResultRole => vec!['r', 'e', 's', 'u', 'l', 't'],
        Keyword::Reference => vec!['r', 'e', 'f', 'e', 'r', 'e', 'n', 'c', 'e'],
        Keyword::Apply => vec!['a', 'p', 'p', 'l', 'y'],
        Keyword::Subject => vec!['s', 'u', 'b', 'j', 'e', 'c', 't'],
        Keyword::Destructure => vec!['d', 'e', 's', 't', 'r', 'u', 'c', 't', 'u', 'r', 'e'],
        Keyword::Pattern => vec!['p', 'a', 't', 't', 'e', 'r', 'n'],
        Keyword::If => vec!['i', 'f'],
        Keyword::Condition => vec!['c', 'o', 'n', 'd', 'i', 't', 'i', 'o', 'n'],
        Keyword::Then => vec!['t', 'h', 'e', 'n'],
        Keyword::Else => vec!['e', 'l', 's', 'e'],
        Keyword::Lambda => vec!['l', 'a', 'm', 'b', 'd', 'a'],
        Keyword::Let => vec!['l', 'e', 't'],
        Keyword::Definition => vec!['d', 'e', 'f', 'i', 'n', 'i', 't', 'i', 'o', 'n'],
        Keyword::List => vec!['l', 'i', 's', 't'],
        Keyword::Element => vec!['e', 'l', 'e', 'm', 'e', 'n', 't'],
        Keyword::PatternMatch => vec!['p', 'a', 't', 't', 'e', 'r', 'n', '-', 'm', 'a', 't', 'c', 'h'],
        Keyword::Tuple => vec!['t', 'u', 'p', 'l', 'e'],
        Keyword::Case => vec!['c', 'a', 's', 'e'],
        Keyword::Update => vec!['u', 'p', 'd', 'a', 't', 'e'],
        Keyword::AsPattern => vec!['a', 's', '-', 'p', 'a', 't', 't', 'e', 'r', 'n'],
        Keyword::TuplePattern => vec!['t', 'u', 'p', 'l', 'e', '-', 'p', 'a', 't', 't', 'e', 'r', 'n'],
        Keyword::ConstructorPattern => vec!['c', 'o', 'n', 's', 't', 'r', 'u', 'c', 't', 'o', 'r', '-', 'p', 'a', 't', 't', 'e', 'r', 'n'],
        Keyword::HeadTail => vec!['h', 'e', 'a', 'd', '-', 't', 'a', 'i', 'l'],
        Keyword::Head => vec!['h', 'e', 'a', 'd'],
        Keyword::Tail => vec!['t', 'a', 'i', 'l'],
        Keyword::External => vec!['e', 'x', 't', 'e', 'r', 'n', 'a', 'l'],
        Keyword::Fallback => vec!['f', 'a', 'l', 'l', 'b', 'a', 'c', 'k'],
        Keyword::PartialBody => vec!['p', 'a', 'r', 't', 'i', 'a', 'l', '-', 'b', 'o', 'd', 'y'],
        Keyword::Hole => vec!['h', 'o', 'l', 'e'],
        Keyword::ExpectedType => vec!['e', 'x', 'p', 'e', 'c', 't', 'e', 'd', '-', 't', 'y', 'p', 'e'],
    };
    assert(r@ =~= keyword_spelling(k));
    r
}

fn keyword_in_length_2(p: &[char]) -> (r: Option<Keyword>)
    ensures
        r == keyword_of_length_2(p@),
{
    let c = vec!['i', 'f'];
    assert(c@ =~= keyword_spelling(Keyword::If));
    if seq_eq(p, c.as_slice()) {
        return Some(Keyword::If);
    }
    None
}

fn keyword_in_length_3(p: &[char]) -> (r: Option<Keyword>)
    ensures
        r == keyword_of_length_3(p@),
{
    let c = vec!['l', 'e', 't'];
    assert(c@ =~= keyword_spelling(Keyword::Let));
    if seq_eq(p, c.as_slice()) {
        return Some(Keyword::Let);
    }
    None
}

fn keyword_in_length_4(p: &[char]) -> (r: Option<Keyword>)
    ensures
        r == keyword_of_length_4(p@),
{
    let c = vec!['t', 'y', 'p', 'e'];
    assert(c@ =~= keyword_spelling(Keyword::Type));
    if seq_eq(p, c.as_slice()) {
        return Some(Keyword::Type);
    }
    let c = vec!['b', 'o', 'd', 'y'];
    assert(c@ =~= keyword_spelling(Keyword::Body));
    if seq_eq(p, c.as_slice()) {
        return Some(Keyword::Body);
    }
    let c = vec!['t', 'h', 'e', 'n'];
    assert(c@ =~= keyword_spelling(Keyword::Then));
    if seq_eq(p, c.as_slice()) {
        return Some(Keyword::Then);
    }
    let c = vec!['e', 'l', 's', 'e'];
    assert(c@ =~= keyword_spelling(Keyword::Else));
    if seq_eq(p, c.as_slice()) {
        return Some(Keyword::Else);
    }
    let c = vec!['l', 'i', 's', 't'];
    assert(c@ =~= keyword_spelling(Keyword::List));
    if seq_eq(p, c.as_slice()) {
        return Some(Keyword::List);
    }
    let c = vec!['c', 'a', 's', 'e'];
    assert(c@ =~= keyword_spelling(Keyword::Case));
    if seq_eq(p, c.as_slice()) {
        return Some(Keyword::Case);
    }
    let c = vec!['h', 'e', 'a', 'd'];
    assert(c@ =~= keyword_spelling(Keyword::Head));
    if seq_eq(p, c.as_slice()) {
        return Some(Keyword::Head);
    }
    let c = vec!['t', 'a', 'i', 'l'];
    assert(c@ =~= keyword_spelling(Keyword::Tail));
    if seq_eq(p, c.as_slice()) {
        return Some(Keyword::Tail);
    }
    let c = vec!['h', 'o', 'l', 'e'];
    assert(c@ =~= keyword_spelling(Keyword::Hole));
    if seq_eq(p, c.as_slice()) {
        return Some(Keyword::Hole);
    }
    None
}

fn keyword_in_length_5(p: &[char]) -> (r: Option<Keyword>)
    ensures
        r == keyword_of_length_5(p@),
{
    let c = vec!['v', 'a', 'l', 'u', 'e'];
    assert(c@ =~= keyword_spelling(Keyword::Value));
    if seq_eq(p, c.as_slice()) {
        return Some(Keyword::Value);
    }
    let c = vec!['i', 'n', 'p', 'u', 't'];
    assert(c@ =~= keyword_spelling(Keyword::Input));
    if seq_eq(p, c.as_slice()) {
        return Some(Keyword::Input);
    }
    let c = vec!['f', 'i', 'e', 'l', 'd'];
    assert(c@ =~= keyword_spelling(Keyword::Field));
    if seq_eq(p, c.as_slice()) {
        return Some(Keyword::Field);
    }
    let c = vec!['a', 'p', 'p', 'l', 'y'];
    assert(c@ =~= keyword_spelling(Keyword::Apply));
    if seq_eq(p, c.as_slice()) {
        return Some(Keyword::Apply);
    }
    let c = vec!['t', 'u', 'p', 'l', 'e'];
    assert(c@ =~= keyword_spelling(Keyword::Tuple));
    if seq_eq(p, c.as_slice()) {
        return Some(Keyword::Tuple);
    }
    None
}

fn keyword_in_length_6(p: &[char]) -> (r: Option<Keyword>)
    ensures
        r == keyword_of_length_6(p@),
{
    let c = vec!['m', 'o', 'd', 'u', 'l', 'e'];
    assert(c@ =~= keyword_spelling(Keyword::Module));
    if seq_eq(p, c.as_slice()) {
        return Some(Keyword::Module);
    }
    let c = vec!['o', 'u', 't', 'p', 'u', 't'];
    assert(c@ =~= keyword_spelling(Keyword::Output));
    if seq_eq(p, c.as_slice()) {
        return Some(Keyword::Output);
    }
    let c = vec!['r', 'e', 'c', 'o', 'r', 'd'];
    assert(c@ =~= keyword_spelling(Keyword::Record));
    if seq_eq(p, c.as_slice()) {
        return Some(Keyword::Record);
    }
    let c = vec!['r', 'e', 's', 'u', 'l', 't'];
    assert(c@ =~= keyword_spelling(Keyword::ResultRole));
    if seq_eq(p, c.as_slice()) {
        return Some(Keyword::ResultRole);
    }
    let c = vec!['l', 'a', 'm', 'b', 'd', 'a'];
    assert(c@ =~= keyword_spelling(Keyword::Lambda));
    if seq_eq(p, c.as_slice()) {
        return Some(Keyword::Lambda);
    }
    let c = vec!['u', 'p', 'd', 'a', 't', 'e'];
    assert(c@ =~= keyword_spelling(Keyword::Update));
    if seq_eq(p, c.as_slice()) {
        return Some(Keyword::Update);
    }
    None
}

fn keyword_in_length_7(p: &[char]) -> (r: Option<Keyword>)
    ensures
        r == keyword_of_length_7(p@),
{
    let c = vec!['p', 'a', 'c', 'k', 'a', 'g', 'e'];
    assert(c@ =~= keyword_spelling(Keyword::Package));
    if seq_eq(p, c.as_slice()) {
        return Some(Keyword::Package);
    }
    let c = vec!['d', 'e', 'r', 'i', 'v', 'e', 'd'];
    assert(c@ =~= keyword_spelling(Keyword::Derived));
    if seq_eq(p, c.as_slice()) {
        return Some(Keyword::Derived);
    }
    let c = vec!['s', 'u', 'b', 'j', 'e', 'c', 't'];
    assert(c@ =~= keyword_spelling(Keyword::Subject));
    if seq_eq(p, c.as_slice()) {
        return Some(Keyword::Subject);
    }
    let c = vec!['p', 'a', 't', 't', 'e', 'r', 'n'];
    assert(c@ =~= keyword_spelling(Keyword::Pattern));
    if seq_eq(p, c.as_slice()) {
        return Some(Keyword::Pattern);
    }
    let c = vec!['e', 'l', 'e', 'm', 'e', 'n', 't'];
    assert(c@ =~= keyword_spelling(Keyword::Element));
    if seq_eq(p, c.as_slice()) {
        return Some(Keyword::Element);
    }
    None
}

fn keyword_in_length_8(p: &[char]) -> (r: Option<Keyword>)
    ensures
        r == keyword_of_length_8(p@),
{
    let c = vec!['t', 'y', 'p', 'e', '-', 'e', 'x', 'p'];
    assert(c@ =~= keyword_spelling(Keyword::TypeExp));
    if seq_eq(p, c.as_slice()) {
        return Some(Keyword::TypeExp);
    }
    let c = vec!['a', 'r', 'g', 'u', 'm', 'e', 'n', 't'];
    assert(c@ =~= keyword_spelling(Keyword::Argument));
    if seq_eq(p, c.as_slice()) {
        return Some(Keyword::Argument);
    }
    let c = vec!['f', 'u', 'n', 'c', 't', 'i', 'o', 'n'];
    assert(c@ =~= keyword_spelling(Keyword::Function));
    if seq_eq(p, c.as_slice()) {
        return Some(Keyword::Function);
    }
    let c = vec!['e', 'x', 't', 'e', 'r', 'n', 'a', 'l'];
    assert(c@ =~= keyword_spelling(Keyword::External));
    if seq_eq(p, c.as_slice()) {
        return Some(Keyword::External);
    }
    let c = vec!['f', 'a', 'l', 'l', 'b', 'a', 'c', 'k'];
    assert(c@ =~= keyword_spelling(Keyword::Fallback));
    if seq_eq(p, c.as_slice()) {
        return Some(Keyword::Fallback);
    }
    None
}

fn keyword_in_length_9(p: &[char]) -> (r: Option<Keyword>)
    ensures
        r == keyword_of_length_9(p@),
{
    let c = vec!['b', 'a', 's', 'e', '-', 't', 'y', 'p', 'e'];
    assert(c@ =~= keyword_spelling(Keyword::BaseType));
    if seq_eq(p, c.as_slice()) {
        return Some(Keyword::BaseType);
    }
    let c = vec!['p', 'a', 'r', 'a', 'm', 'e', 't', 'e', 'r'];
    assert(c@ =~= keyword_spelling(Keyword::Parameter));
    if seq_eq(p, c.as_slice()) {
        return Some(Keyword::Parameter);
    }
    let c = vec!['r', 'e', 'f', 'e', 'r', 'e', 'n', 'c', 'e'];
    assert(c@ =~= keyword_spelling(Keyword::Reference));
    if seq_eq(p, c.as_slice()) {
        return Some(Keyword::Reference);
    }
    let c = vec!['c', 'o', 'n', 'd', 'i', 't', 'i', 'o', 'n'];
    assert(c@ =~= keyword_spelling(Keyword::Condition));
    if seq_eq(p, c.as_slice()) {
        return Some(Keyword::Condition);
    }
    let c = vec!['h', 'e', 'a', 'd', '-', 't', 'a', 'i', 'l'];
    assert(c@ =~= keyword_spelling(Keyword::HeadTail));
    if seq_eq(p, c.as_slice()) {
        return Some(Keyword::HeadTail);
    }
    None
}

fn keyword_in_length_10(p: &[char]) -> (r: Option<Keyword>)
    ensures
        r == keyword_of_length_10(p@),
{
    let c = vec!['d', 'e', 'p', 'e', 'n', 'd', 'e', 'n', 'c', 'y'];
    assert(c@ =~= keyword_spelling(Keyword::Dependency));
    if seq_eq(p, c.as_slice()) {
        return Some(Keyword::Dependency);
    }
    let c = vec!['i', 'n', 'c', 'o', 'm', 'p', 'l', 'e', 't', 'e'];
    assert(c@ =~= keyword_spelling(Keyword::Incomplete));
    if seq_eq(p, c.as_slice()) {
        return Some(Keyword::Incomplete);
    }
    let c = vec!['d', 'e', 'f', 'i', 'n', 'i', 't', 'i', 'o', 'n'];
    assert(c@ =~= keyword_spelling(Keyword::Definition));
    if seq_eq(p, c.as_slice()) {
        return Some(Keyword::Definition);
    }
    let c = vec!['a', 's', '-', 'p', 'a', 't', 't', 'e', 'r', 'n'];
    assert(c@ =~= keyword_spelling(Keyword::AsPattern));
    if seq_eq(p, c.as_slice()) {
        return Some(Keyword::AsPattern);
    }
    None
}

fn keyword_in_length_11(p: &[char]) -> (r: Option<Keyword>)
    ensures
        r == keyword_of_length_11(p@),
{
    let c = vec!['e', 'n', 't', 'r', 'y', '-', 'p', 'o', 'i', 'n', 't'];
    assert(c@ =~= keyword_spelling(Keyword::EntryPoint));
    if seq_eq(p, c.as_slice()) {
        return Some(Keyword::EntryPoint);
    }
    let c = vec!['c', 'o', 'n', 's', 't', 'r', 'u', 'c', 't', 'o', 'r'];
    assert(c@ =~= keyword_spelling(Keyword::Constructor));
    if seq_eq(p, c.as_slice()) {
        return Some(Keyword::Constructor);
    }
    let c = vec!['d', 'e', 's', 't', 'r', 'u', 'c', 't', 'u', 'r', 'e'];
    assert(c@ =~= keyword_spelling(Keyword::Destructure));
    if seq_eq(p, c.as_slice()) {
        return Some(Keyword::Destructure);
    }
    None
}

fn keyword_in_length_12(p: &[char]) -> (r: Option<Keyword>)
    ensures
        r == keyword_of_length_12(p@),
{
    let c = vec!['d', 'i', 's', 't', 'r', 'i', 'b', 'u', 't', 'i', 'o', 'n'];
    assert(c@ =~= keyword_spelling(Keyword::Distribution));
    if seq_eq(p, c.as_slice()) {
        return Some(Keyword::Distribution);
    }
    let c = vec!['p', 'a', 'r', 't', 'i', 'a', 'l', '-', 't', 'y', 'p', 'e'];
    assert(c@ =~= keyword_spelling(Keyword::PartialType));
    if seq_eq(p, c.as_slice()) {
        return Some(Keyword::PartialType);
    }
    let c = vec!['p', 'a', 'r', 't', 'i', 'a', 'l', '-', 'b', 'o', 'd', 'y'];
    assert(c@ =~= keyword_spelling(Keyword::PartialBody));
    if seq_eq(p, c.as_slice()) {
        return Some(Keyword::PartialBody);
    }
    None
}

fn keyword_in_length_13(p: &[char]) -> (r: Option<Keyword>)
    ensures
        r == keyword_of_length_13(p@),
{
    let c = vec!['p', 'a', 't', 't', 'e', 'r', 'n', '-', 'm', 'a', 't', 'c', 'h'];
    assert(c@ =~= keyword_spelling(Keyword::PatternMatch));
    if seq_eq(p, c.as_slice()) {
        return Some(Keyword::PatternMatch);
    }
    let c = vec!['t', 'u', 'p', 'l', 'e', '-', 'p', 'a', 't', 't', 'e', 'r', 'n'];
    assert(c@ =~= keyword_spelling(Keyword::TuplePattern));
    if seq_eq(p, c.as_slice()) {
        return Some(Keyword::TuplePattern);
    }
    let c = vec!['e', 'x', 'p', 'e', 'c', 't', 'e', 'd', '-', 't', 'y', 'p', 'e'];
    assert(c@ =~= keyword_spelling(Keyword::ExpectedType));
    if seq_eq(p, c.as_slice()) {
        return Some(Keyword::ExpectedType);
    }
    None
}

fn keyword_in_length_16(p: &[char]) -> (r: Option<Keyword>)
    ensures
        r == keyword_of_length_16(p@),
{
    let c = vec!['i', 'n', 'p', 'u', 't', '-', 'a', 'n', 'n', 'o', 't', 'a', 't', 'i', 'o', 'n'];
    assert(c@ =~= keyword_spelling(Keyword::InputAnnotation));
    if seq_eq(p, c.as_slice()) {
        return Some(Keyword::InputAnnotation);
    }
    None
}

fn keyword_in_length_17(p: &[char]) -> (r: Option<Keyword>)
    ensures
        r == keyword_of_length_17(p@),
{
    let c = vec!['e', 'x', 't', 'e', 'n', 's', 'i', 'b', 'l', 'e', '-', 'r', 'e', 'c', 'o', 'r', 'd'];
    assert(c@ =~= keyword_spelling(Keyword::ExtensibleRecord));
    if seq_eq(p, c.as_slice()) {
        return Some(Keyword::ExtensibleRecord);
    }
    None
}

fn keyword_in_length_19(p: &[char]) -> (r: Option<Keyword>)
    ensures
        r == keyword_of_length_19(p@),
{
    let c = vec!['c', 'o', 'n', 's', 't', 'r', 'u', 'c', 't', 'o', 'r', '-', 'p', 'a', 't', 't', 'e', 'r', 'n'];
    assert(c@ =~= keyword_spelling(Keyword::ConstructorPattern));
    if seq_eq(p, c.as_slice()) {
        return Some(Keyword::ConstructorPattern);
    }
    None
}

fn keyword_in(p: &[char]) -> (r: Option<Keyword>)
    ensures
        r == keyword_of(p@),
{
    let n = p.len();
    if n == 2 {
        return keyword_in_length_2(p);
    }
    if n == 3 {
        return keyword_in_length_3(p);
    }
    if n == 4 {
        return keyword_in_length_4(p);
    }
    if n == 5 {
        return keyword_in_length_5(p);
    }
    if n == 6 {
        return keyword_in_length_6(p);
    }
    if n == 7 {
        return keyword_in_length_7(p);
    }
    if n == 8 {
        return keyword_in_length_8(p);
    }
    if n == 9 {
        return keyword_in_length_9(p);
    }
    if n == 10 {
        return keyword_in_length_10(p);
    }
    if n == 11 {
        return keyword_in_length_11(p);
    }
    if n == 12 {
        return keyword_in_length_12(p);
    }
    if n == 13 {
        return keyword_in_length_13(p);
    }
    if n == 16 {
        return keyword_in_length_16(p);
    }
    if n == 17 {
        return keyword_in_length_17(p);
    }
    if n == 19 {
        return keyword_in_length_19(p);
    }
    None
}

proof fn lemma_keywords_of_length_2()
    ensures
        keyword_of(keyword_spelling(Keyword::If)) == Some(Keyword::If),
{
    assert(keyword_spelling(Keyword::If).len() == 2);
}

proof fn lemma_keywords_of_length_3()
    ensures
        keyword_of(keyword_spelling(Keyword::Let)) == Some(Keyword::Let),
{
    assert(keyword_spelling(Keyword::Let).len() == 3);
}

proof fn lemma_keywords_of_length_4()
    ensures
        keyword_of(keyword_spelling(Keyword::Type)) == Some(Keyword::Type),
        keyword_of(keyword_spelling(Keyword::Body)) == Some(Keyword::Body),
        keyword_of(keyword_spelling(Keyword::Then)) == Some(Keyword::Then),
        keyword_of(keyword_spelling(Keyword::Else)) == Some(Keyword::Else),
        keyword_of(keyword_spelling(Keyword::List)) == Some(Keyword::List),
        keyword_of(keyword_spelling(Keyword::Case)) == Some(Keyword::Case),
        keyword_of(keyword_spelling(Keyword::Head)) == Some(Keyword::Head),
        keyword_of(keyword_spelling(Keyword::Tail)) == Some(Keyword::Tail),
        keyword_of(keyword_spelling(Keyword::Hole)) == Some(Keyword::Hole),
{
    assert(keyword_spelling(Keyword::Type).len() == 4);
    assert(keyword_spelling(Keyword::Body).len() == 4);
    assert(keyword_spelling(Keyword::Body)[0] != keyword_spelling(Keyword::Type)[0]);
    assert(keyword_spelling(Keyword::Then).len() == 4);
    assert(keyword_spelling(Keyword::Then)[1] != keyword_spelling(Keyword::Type)[1]);
    assert(keyword_spelling(Keyword::Then)[0] != keyword_spelling(Keyword::Body)[0]);
    assert(keyword_spelling(Keyword::Else).len() == 4);
    assert(keyword_spelling(Keyword::Else)[0] != keyword_spelling(Keyword::Type)[0]);
    assert(keyword_spelling(Keyword::Else)[0] != keyword_spelling(Keyword::Body)[0]);
    assert(keyword_spelling(Keyword::Else)[0] != keyword_spelling(Keyword::Then)[0]);
    assert(keyword_spelling(Keyword::List).len() == 4);
    assert(keyword_spelling(Keyword::List)[0] != keyword_spelling(Keyword::Type)[0]);
    assert(keyword_spelling(Keyword::List)[0] != keyword_spelling(Keyword::Body)[0]);
    assert(keyword_spelling(Keyword::List)[0] != keyword_spelling(Keyword::Then)[0]);
    assert(keyword_spelling(Keyword::List)[0] != keyword_spelling(Keyword::Else)[0]);
    assert(keyword_spelling(Keyword::Case).len() == 4);
    assert(keyword_spelling(Keyword::Case)[0] != keyword_spelling(Keyword::Type)[0]);
    assert(keyword_spelling(Keyword::Case)[0] != keyword_spelling(Keyword::Body)[0]);
    assert(keyword_spelling(Keyword::Case)[0] != keyword_spelling(Keyword::Then)[0]);
    assert(keyword_spelling(Keyword::Case)[0] != keyword_spelling(Keyword::Else)[0]);
    assert(keyword_spelling(Keyword::Case)[0] != keyword_spelling(Keyword::List)[0]);
    assert(keyword_spelling(Keyword::Head).len() == 4);
    assert(keyword_spelling(Keyword::Head)[0] != keyword_spelling(Keyword::Type)[0]);
    assert(keyword_spelling(Keyword::Head)[0] != keyword_spelling(Keyword::Body)[0]);
    assert(keyword_spelling(Keyword::Head)[0] != keyword_spelling(Keyword::Then)[0]);
    assert(keyword_spelling(Keyword::Head)[0] != keyword_spelling(Keyword::Else)[0]);
    assert(keyword_spelling(Keyword::Head)[0] != keyword_spelling(Keyword::List)[0]);
    assert(keyword_spelling(Keyword::Head)[0] != keyword_spelling(Keyword::Case)[0]);
    assert(keyword_spelling(Keyword::Tail).len() == 4);
    assert(keyword_spelling(Keyword::Tail)[1] != keyword_spelling(Keyword::Type)[1]);
    assert(keyword_spelling(Keyword::Tail)[0] != keyword_spelling(Keyword::Body)[0]);
    assert(keyword_spelling(Keyword::Tail)[1] != keyword_spelling(Keyword::Then)[1]);
    assert(keyword_spelling(Keyword::Tail)[0] != keyword_spelling(Keyword::Else)[0]);
    assert(keyword_spelling(Keyword::Tail)[0] != keyword_spelling(Keyword::List)[0]);
    assert(keyword_spelling(Keyword::Tail)[0] != keyword_spelling(Keyword::Case)[0]);
    assert(keyword_spelling(Keyword::Tail)[0] != keyword_spelling(Keyword::Head)[0]);
    assert(keyword_spelling(Keyword::Hole).len() == 4);
    assert(keyword_spelling(Keyword::Hole)[0] != keyword_spelling(Keyword::Type)[0]);
    assert(keyword_spelling(Keyword::Hole)[0] != keyword_spelling(Keyword::Body)[0]);
    assert(keyword_spelling(Keyword::Hole)[0] != keyword_spelling(Keyword::Then)[0]);
    assert(keyword_spelling(Keyword::Hole)[0] != keyword_spelling(Keyword::Else)[0]);
    assert(keyword_spelling(Keyword::Hole)[0] != keyword_spelling(Keyword::List)[0]);
    assert(keyword_spelling(Keyword::Hole)[0] != keyword_spelling(Keyword::Case)[0]);
    assert(keyword_spelling(Keyword::Hole)[1] != keyword_spelling(Keyword::Head)[1]);
    assert(keyword_spelling(Keyword::Hole)[0] != keyword_spelling(Keyword::Tail)[0]);
}

proof fn lemma_keywords_of_length_5()
    ensures
        keyword_of(keyword_spelling(Keyword::Value)) == Some(Keyword::Value),
        keyword_of(keyword_spelling(Keyword::Input)) == Some(Keyword::Input),
        keyword_of(keyword_spelling(Keyword::Field)) == Some(Keyword::Field),
        keyword_of(keyword_spelling(Keyword::Apply)) == Some(Keyword::Apply),
        keyword_of(keyword_spelling(Keyword::Tuple)) == Some(Keyword::Tuple),
{
    assert(keyword_spelling(Keyword::Value).len() == 5);
    assert(keyword_spelling(Keyword::Input).len() == 5);
    assert(keyword_spelling(Keyword::Input)[0] != keyword_spelling(Keyword::Value)[0]);
    assert(keyword_spelling(Keyword::Field).len() == 5);
    assert(keyword_spelling(Keyword::Field)[0] != keyword_spelling(Keyword::Value)[0]);
    assert(keyword_spelling(Keyword::Field)[0] != keyword_spelling(Keyword::Input)[0]);
    assert(keyword_spelling(Keyword::Apply).len() == 5);
    assert(keyword_spelling(Keyword::Apply)[0] != keyword_spelling(Keyword::Value)[0]);
    assert(keyword_spelling(Keyword::Apply)[0] != keyword_spelling(Keyword::Input)[0]);
    assert(keyword_spelling(Keyword::Apply)[0] != keyword_spelling(Keyword::Field)[0]);
    assert(keyword_spelling(Keyword::Tuple).len() == 5);
    assert(keyword_spelling(Keyword::Tuple)[0] != keyword_spelling(Keyword::Value)[0]);
    assert(keyword_spelling(Keyword::Tuple)[0] != keyword_spelling(Keyword::Input)[0]);
    assert(keyword_spelling(Keyword::Tuple)[0] != keyword_spelling(Keyword::Field)[0]);
    assert(keyword_spelling(Keyword::Tuple)[0] != keyword_spelling(Keyword::Apply)[0]);
}

proof fn lemma_keywords_of_length_6()
    ensures
        keyword_of(keyword_spelling(Keyword::Module)) == Some(Keyword::Module),
        keyword_of(keyword_spelling(Keyword::Output)) == Some(Keyword::Output),
        keyword_of(keyword_spelling(Keyword::Record)) == Some(Keyword::Record),
        keyword_of(keyword_spelling(Keyword::ResultRole)) == Some(Keyword::ResultRole),
        keyword_of(keyword_spelling(Keyword::Lambda)) == Some(Keyword::Lambda),
        keyword_of(keyword_spelling(Keyword::Update)) == Some(Keyword::Update),
{
    assert(keyword_spelling(Keyword::Module).len() == 6);
    assert(keyword_spelling(Keyword::Output).len() == 6);
    assert(keyword_spelling(Keyword::Output)[0] != keyword_spelling(Keyword::Module)[0]);
    assert(keyword_spelling(Keyword::Record).len() == 6);
    assert(keyword_spelling(Keyword::Record)[0] != keyword_spelling(Keyword::Module)[0]);
    assert(keyword_spelling(Keyword::Record)[0] != keyword_spelling(Keyword::Output)[0]);
    assert(keyword_spelling(Keyword::ResultRole).len() == 6);
    assert(keyword_spelling(Keyword::ResultRole)[0] != keyword_spelling(Keyword::Module)[0]);
    assert(keyword_spelling(Keyword::ResultRole)[0] != keyword_spelling(Keyword::Output)[0]);
    assert(keyword_spelling(Keyword::ResultRole)[2] != keyword_spelling(Keyword::Record)[2]);
    assert(keyword_spelling(Keyword::Lambda).len() == 6);
    assert(keyword_spelling(Keyword::Lambda)[0] != keyword_spelling(Keyword::Module)[0]);
    assert(keyword_spelling(Keyword::Lambda)[0] != keyword_spelling(Keyword::Output)[0]);
    assert(keyword_spelling(Keyword::Lambda)[0] != keyword_spelling(Keyword::Record)[0]);
    assert(keyword_spelling(Keyword::Lambda)[0] != keyword_spelling(Keyword::ResultRole)[0]);
    assert(keyword_spelling(Keyword::Update).len() == 6);
    assert(keyword_spelling(Keyword::Update)[0] != keyword_spelling(Keyword::Module)[0]);
    assert(keyword_spelling(Keyword::Update)[0] != keyword_spelling(Keyword::Output)[0]);
    assert(keyword_spelling(Keyword::Update)[0] != keyword_spelling(Keyword::Record)[0]);
    assert(keyword_spelling(Keyword::Update)[0] != keyword_spelling(Keyword::ResultRole)[0]);
    assert(keyword_spelling(Keyword::Update)[0] != keyword_spelling(Keyword::Lambda)[0]);
}

proof fn lemma_keywords_of_length_7()
    ensures
        keyword_of(keyword_spelling(Keyword::Package)) == Some(Keyword::Package),
        keyword_of(keyword_spelling(Keyword::Derived)) == Some(Keyword::Derived),
        keyword_of(keyword_spelling(Keyword::Subject)) == Some(Keyword::Subject),
        keyword_of(keyword_spelling(Keyword::Pattern)) == Some(Keyword::Pattern),
        keyword_of(keyword_spelling(Keyword::Element)) == Some(Keyword::Element),
{
    assert(keyword_spelling(Keyword::Package).len() == 7);
    assert(keyword_spelling(Keyword::Derived).len() == 7);
    assert(keyword_spelling(Keyword::Derived)[0] != keyword_spelling(Keyword::Package)[0]);
    assert(keyword_spelling(Keyword::Subject).len() == 7);
    assert(keyword_spelling(Keyword::Subject)[0] != keyword_spelling(Keyword::Package)[0]);
    assert(keyword_spelling(Keyword::Subject)[0] != keyword_spelling(Keyword::Derived)[0]);
    assert(keyword_spelling(Keyword::Pattern).len() == 7);
    assert(keyword_spelling(Keyword::Pattern)[2] != keyword_spelling(Keyword::Package)[2]);
    assert(keyword_spelling(Keyword::Pattern)[0] != keyword_spelling(Keyword::Derived)[0]);
    assert(keyword_spelling(Keyword::Pattern)[0] != keyword_spelling(Keyword::Subject)[0]);
    assert(keyword_spelling(Keyword::Element).len() == 7);
    assert(keyword_spelling(Keyword::Element)[0] != keyword_spelling(Keyword::Package)[0]);
    assert(keyword_spelling(Keyword::Element)[0] != keyword_spelling(Keyword::Derived)[0]);
    assert(keyword_spelling(Keyword::Element)[0] != keyword_spelling(Keyword::Subject)[0]);
    assert(keyword_spelling(Keyword::Element)[0] != keyword_spelling(Keyword::Pattern)[0]);
}

proof fn lemma_keywords_of_length_8()
    ensures
        keyword_of(keyword_spelling(Keyword::TypeExp)) == Some(Keyword::TypeExp),
        keyword_of(keyword_spelling(Keyword::Argument)) == Some(Keyword::Argument),
        keyword_of(keyword_spelling(Keyword::Function)) == Some(Keyword::Function),
        keyword_of(keyword_spelling(Keyword::External)) == Some(Keyword::External),
        keyword_of(keyword_spelling(Keyword::Fallback)) == Some(Keyword::Fallback),
{
    assert(keyword_spelling(Keyword::TypeExp).len() == 8);
    assert(keyword_spelling(Keyword::Argument).len() == 8);
    assert(keyword_spelling(Keyword::Argument)[0] != keyword_spelling(Keyword::TypeExp)[0]);
    assert(keyword_spelling(Keyword::Function).len() == 8);
    assert(keyword_spelling(Keyword::Function)[0] != keyword_spelling(Keyword::TypeExp)[0]);
    assert(keyword_spelling(Keyword::Function)[0] != keyword_spelling(Keyword::Argument)[0]);
    assert(keyword_spelling(Keyword::External).len() == 8);
    assert(keyword_spelling(Keyword::External)[0] != keyword_spelling(Keyword::TypeExp)[0]);
    assert(keyword_spelling(Keyword::External)[0] != keyword_spelling(Keyword::Argument)[0]);
    assert(keyword_spelling(Keyword::External)[0] != keyword_spelling(Keyword::Function)[0]);
    assert(keyword_spelling(Keyword::Fallback).len() == 8);
    assert(keyword_spelling(Keyword::Fallback)[0] != keyword_spelling(Keyword::TypeExp)[0]);
    assert(keyword_spelling(Keyword::Fallback)[0] != keyword_spelling(Keyword::Argument)[0]);
    assert(keyword_spelling(Keyword::Fallback)[1] != keyword_spelling(Keyword::Function)[1]);
    assert(keyword_spelling(Keyword::Fallback)[0] != keyword_spelling(Keyword::External)[0]);
}

proof fn lemma_keywords_of_length_9()
    ensures
        keyword_of(keyword_spelling(Keyword::BaseType)) == Some(Keyword::BaseType),
        keyword_of(keyword_spelling(Keyword::Parameter)) == Some(Keyword::Parameter),
        keyword_of(keyword_spelling(Keyword::Reference)) == Some(Keyword::Reference),
        keyword_of(keyword_spelling(Keyword::Condition)) == Some(Keyword::Condition),
        keyword_of(keyword_spelling(Keyword::HeadTail)) == Some(Keyword::HeadTail),
{
    assert(keyword_spelling(Keyword::BaseType).len() == 9);
    assert(keyword_spelling(Keyword::Parameter).len() == 9);
    assert(keyword_spelling(Keyword::Parameter)[0] != keyword_spelling(Keyword::BaseType)[0]);
    assert(keyword_spelling(Keyword::Reference).len() == 9);
    assert(keyword_spelling(Keyword::Reference)[0] != keyword_spelling(Keyword::BaseType)[0]);
    assert(keyword_spelling(Keyword::Reference)[0] != keyword_spelling(Keyword::Parameter)[0]);
    assert(keyword_spelling(Keyword::Condition).len() == 9);
    assert(keyword_spelling(Keyword::Condition)[0] != keyword_spelling(Keyword::BaseType)[0]);
    assert(keyword_spelling(Keyword::Condition)[0] != keyword_spelling(Keyword::Parameter)[0]);
    assert(keyword_spelling(Keyword::Condition)[0] != keyword_spelling(Keyword::Reference)[0]);
    assert(keyword_spelling(Keyword::HeadTail).len() == 9);
    assert(keyword_spelling(Keyword::HeadTail)[0] != keyword_spelling(Keyword::BaseType)[0]);
    assert(keyword_spelling(Keyword::HeadTail)[0] != keyword_spelling(Keyword::Parameter)[0]);
    assert(keyword_spelling(Keyword::HeadTail)[0] != keyword_spelling(Keyword::Reference)[0]);
    assert(keyword_spelling(Keyword::HeadTail)[0] != keyword_spelling(Keyword::Condition)[0]);
}

proof fn lemma_keywords_of_length_10()
    ensures
        keyword_of(keyword_spelling(Keyword::Dependency)) == Some(Keyword::Dependency),
        keyword_of(keyword_spelling(Keyword::Incomplete)) == Some(Keyword::Incomplete),
        keyword_of(keyword_spelling(Keyword::Definition)) == Some(Keyword::Definition),
        keyword_of(keyword_spelling(Keyword::AsPattern)) == Some(Keyword::AsPattern),
{
    assert(keyword_spelling(Keyword::Dependency).len() == 10);
    assert(keyword_spelling(Keyword::Incomplete).len() == 10);
    assert(keyword_spelling(Keyword::Incomplete)[0] != keyword_spelling(Keyword::Dependency)[0]);
    assert(keyword_spelling(Keyword::Definition).len() == 10);
    assert(keyword_spelling(Keyword::Definition)[2] != keyword_spelling(Keyword::Dependency)[2]);
    assert(keyword_spelling(Keyword::Definition)[0] != keyword_spelling(Keyword::Incomplete)[0]);
    assert(keyword_spelling(Keyword::AsPattern).len() == 10);
    assert(keyword_spelling(Keyword::AsPattern)[0] != keyword_spelling(Keyword::Dependency)[0]);
    assert(keyword_spelling(Keyword::AsPattern)[0] != keyword_spelling(Keyword::Incomplete)[0]);
    assert(keyword_spelling(Keyword::AsPattern)[0] != keyword_spelling(Keyword::Definition)[0]);
}

proof fn lemma_keywords_of_length_11()
    ensures
        keyword_of(keyword_spelling(Keyword::EntryPoint)) == Some(Keyword::EntryPoint),
        keyword_of(keyword_spelling(Keyword::Constructor)) == Some(Keyword::Constructor),
        keyword_of(keyword_spelling(Keyword::Destructure)) == Some(Keyword::Destructure),
{
    assert(keyword_spelling(Keyword::EntryPoint).len() == 11);
    assert(keyword_spelling(Keyword::Constructor).len() == 11);
    assert(keyword_spelling(Keyword::Constructor)[0] != keyword_spelling(Keyword::EntryPoint)[0]);
    assert(keyword_spelling(Keyword::Destructure).len() == 11);
    assert(keyword_spelling(Keyword::Destructure)[0] != keyword_spelling(Keyword::EntryPoint)[0]);
    assert(keyword_spelling(Keyword::Destructure)[0] != keyword_spelling(Keyword::Constructor)[0]);
}

proof fn lemma_keywords_of_length_12()
    ensures
        keyword_of(keyword_spelling(Keyword::Distribution)) == Some(Keyword::Distribution),
        keyword_of(keyword_spelling(Keyword::PartialType)) == Some(Keyword::PartialType),
        keyword_of(keyword_spelling(Keyword::PartialBody)) == Some(Keyword::PartialBody),
{
    assert(keyword_spelling(Keyword::Distribution).len() == 12);
    assert(keyword_spelling(Keyword::PartialType).len() == 12);
    assert(keyword_spelling(Keyword::PartialType)[0] != keyword_spelling(Keyword::Distribution)[0]);
    assert(keyword_spelling(Keyword::PartialBody).len() == 12);
    assert(keyword_spelling(Keyword::PartialBody)[0] != keyword_spelling(Keyword::Distribution)[0]);
    assert(keyword_spelling(Keyword::PartialBody)[8] != keyword_spelling(Keyword::PartialType)[8]);
}

proof fn lemma_keywords_of_length_13()
    ensures
        keyword_of(keyword_spelling(Keyword::PatternMatch)) == Some(Keyword::PatternMatch),
        keyword_of(keyword_spelling(Keyword::TuplePattern)) == Some(Keyword::TuplePattern),
        keyword_of(keyword_spelling(Keyword::ExpectedType)) == Some(Keyword::ExpectedType),
{
    assert(keyword_spelling(Keyword::PatternMatch).len() == 13);
    assert(keyword_spelling(Keyword::TuplePattern).len() == 13);
    assert(keyword_spelling(Keyword::TuplePattern)[0] != keyword_spelling(Keyword::PatternMatch)[0]);
    assert(keyword_spelling(Keyword::ExpectedType).len() == 13);
    assert(keyword_spelling(Keyword::ExpectedType)[0] != keyword_spelling(Keyword::PatternMatch)[0]);
    assert(keyword_spelling(Keyword::ExpectedType)[0] != keyword_spelling(Keyword::TuplePattern)[0]);
}

proof fn lemma_keywords_of_length_16()
    ensures
        keyword_of(keyword_spelling(Keyword::InputAnnotation)) == Some(Keyword::InputAnnotation),
{
    assert(keyword_spelling(Keyword::InputAnnotation).len() == 16);
}

proof fn lemma_keywords_of_length_17()
    ensures
        keyword_of(keyword_spelling(Keyword::ExtensibleRecord)) == Some(Keyword::ExtensibleRecord),
{
    assert(keyword_spelling(Keyword::ExtensibleRecord).len() == 17);
}

proof fn lemma_keywords_of_length_19()
    ensures
        keyword_of(keyword_spelling(Keyword::ConstructorPattern)) == Some(Keyword::ConstructorPattern),
{
    assert(keyword_spelling(Keyword::ConstructorPattern).len() == 19);
}

/// Every keyword reads back from its spelling.
pub proof fn lemma_keyword_roundtrip(k: Keyword)
    ensures
        keyword_of(keyword_spelling(k)) == Some(k),
{
    lemma_keywords_of_length_2();
    lemma_keywords_of_length_3();
    lemma_keywords_of_length_4();
    lemma_keywords_of_length_5();
    lemma_keywords_of_length_6();
    lemma_keywords_of_length_7();
    lemma_keywords_of_length_8();
    lemma_keywords_of_length_9();
    lemma_keywords_of_length_10();
    lemma_keywords_of_length_11();
    lemma_keywords_of_length_12();
    lemma_keywords_of_length_13();
    lemma_keywords_of_length_16();
    lemma_keywords_of_length_17();
    lemma_keywords_of_length_19();
}

/// A keyword is a non-empty run of lowercase letters and `-`.
pub proof fn lemma_keyword_shape(k: Keyword)
    ensures
        keyword_spelling(k).len() > 0,
        forall|i: int| 0 <= i < keyword_spelling(k).len() ==> is_lower(#[trigger] keyword_spelling(k)[i]) || keyword_spelling(k)[i] == '-',
{
}

// ---------------------------------------------------------------------------
// Numbers: the format triplet and positional indices
// ---------------------------------------------------------------------------

/// What `str::parse::<u32>` answers: an optional `+`, then decimal digits whose value fits.
pub open spec fn u32_text(s: Seq<char>) -> Option<u32> {
    let d = if s.len() > 0 && s[0] == '+' {
        s.skip(1)
    } else {
        s
    };
    if d.len() > 0 && all_digits(d) && digits_value(d) <= u32::MAX {
        Some(digits_value(d) as u32)
    } else {
        None
    }
}

fn digits_only(s: &[char]) -> (r: bool)
    ensures
        r == all_digits(s@),
{
    let mut i: usize = 0;
    while i < s.len()
        invariant
            i <= s.len(),
            forall|j: int| 0 <= j < i ==> crate::text::is_digit(#[trigger] s@[j]),
        decreases s.len() - i,
    {
        if !('0' <= s[i] && s[i] <= '9') {
            return false;
        }
        i = i + 1;
    }
    true
}

fn u32_in(s: &[char]) -> (r: Option<u32>)
    ensures
        r == u32_text(s@),
{
    let start: usize = if s.len() > 0 && s[0] == '+' {
        1
    } else {
        0
    };
    let d = subrange(s, start, s.len());
    assert(start == 1 ==> d@ =~= s@.skip(1));
    assert(start == 0 ==> d@ =~= s@);
    if d.len() == 0 || !digits_only(d.as_slice()) {
        return None;
    }
    match parse_digits(d.as_slice(), 4294967295u64) {
        Some(v) => Some(v as u32),
        None => None,
    }
}

/// A format component with nothing in it or a redundant leading zero.
pub open spec fn noncanonical_number(p: Seq<char>) -> bool {
    p.len() == 0 || (p.len() > 1 && p[0] == '0')
}

/// What the `format` query parameter's value reads as.
pub open spec fn parse_format(v: Seq<char>) -> Result<ReleaseTriplet, UriErrorView> {
    let ps = split(v, '.');
    if ps.len() != 3 || noncanonical_number(ps[0]) || noncanonical_number(ps[1])
        || noncanonical_number(ps[2]) {
        Err(UriErrorView::Invalid("format must have three canonical numeric components"@))
    } else {
        match (u32_text(ps[0]), u32_text(ps[1]), u32_text(ps[2])) {
            (Some(a), Some(b), Some(c)) => Ok(ReleaseTriplet { major: a, minor: b, patch: c }),
            _ => Err(UriErrorView::Invalid("invalid format component"@)),
        }
    }
}

fn noncanonical_number_in(p: &Vec<char>) -> (r: bool)
    ensures
        r == noncanonical_number(p@),
{
    p.len() == 0 || (p.len() > 1 && p[0] == '0')
}

fn parse_format_in(v: &[char]) -> (r: Result<ReleaseTriplet, NodeUriError>)
    ensures
        match r {
            Ok(t) => parse_format(v@) == Ok::<ReleaseTriplet, UriErrorView>(t),
            Err(e) => parse_format(v@) == Err::<ReleaseTriplet, UriErrorView>(e@),
        },
{
    let ps = split_chars(v, '.');
    let ghost sp = split(v@, '.');
    if ps.len() != 3 {
        return Err(invalid("format must have three canonical numeric components"));
    }
    assert(ps@[0]@ == sp[0] && ps@[1]@ == sp[1] && ps@[2]@ == sp[2]);
    if noncanonical_number_in(&ps[0]) || noncanonical_number_in(&ps[1]) || noncanonical_number_in(
        &ps[2],
    ) {
        return Err(invalid("format must have three canonical numeric components"));
    }
    let a = u32_in(ps[0].as_slice());
    let b = u32_in(ps[1].as_slice());
    let c = u32_in(ps[2].as_slice());
    match (a, b, c) {
        (Some(a), Some(b), Some(c)) => Ok(ReleaseTriplet { major: a, minor: b, patch: c }),
        _ => Err(invalid("invalid format component")),
    }
}

/// What a positional index part reads as.
pub open spec fn parse_index_spec(v: Seq<char>) -> Result<usize, UriErrorView> {
    if v.len() == 0 || (v.len() > 1 && v[0] == '0') || !all_digits(v) {
        Err(UriErrorView::Invalid("invalid positional index"@))
    } else if digits_value(v) > usize::MAX {
        Err(UriErrorView::Invalid("positional index overflow"@))
    } else {
        Ok(digits_value(v) as usize)
    }
}

fn parse_index_part(v: &Vec<char>) -> (r: Result<usize, NodeUriError>)
    ensures
        match r {
            Ok(i) => parse_index_spec(v@) == Ok::<usize, UriErrorView>(i),
            Err(e) => parse_index_spec(v@) == Err::<usize, UriErrorView>(e@),
        },
{
    if v.len() == 0 || (v.len() > 1 && v[0] == '0') || !digits_only(v.as_slice()) {
        return Err(invalid("invalid positional index"));
    }
    match parse_digits(v.as_slice(), usize::MAX as u64) {
        Some(x) => Ok(x as usize),
        None => Err(invalid("positional index overflow")),
    }
}

// ---------------------------------------------------------------------------
// Workspace aliases, names and paths as components
// ---------------------------------------------------------------------------

/// Lowercase words and digits joined by single hyphens, starting with a letter: the shape
/// of a workspace alias.
pub open spec fn lowercase_words(v: Seq<char>) -> bool {
    &&& v.len() > 0
    &&& is_lower(v[0])
    &&& is_lower_alnum(v.last())
    &&& forall|i: int|
        0 <= i < v.len() ==> is_lower_alnum(#[trigger] v[i]) || (v[i] == '-' && i + 1 < v.len()
            && v[i + 1] != '-')
}

pub fn lowercase_words_in(v: &[char]) -> (r: bool)
    ensures
        r == lowercase_words(v@),
{
    if v.len() == 0 || !('a' <= v[0] && v[0] <= 'z') {
        return false;
    }
    let last = v[v.len() - 1];
    if !(('a' <= last && last <= 'z') || ('0' <= last && last <= '9')) {
        assert(v@.last() == last);
        return false;
    }
    assert(v@.last() == last);
    let mut i: usize = 0;
    while i < v.len()
        invariant
            i <= v.len(),
            forall|j: int|
                0 <= j < i ==> is_lower_alnum(#[trigger] v@[j]) || (v@[j] == '-' && j + 1
                    < v@.len() && v@[j + 1] != '-'),
        decreases v.len() - i,
    {
        let c = v[i];
        let ok = ('a' <= c && c <= 'z') || ('0' <= c && c <= '9') || (c == '-' && i + 1 < v.len()
            && v[i + 1] != '-');
        if !ok {
            return false;
        }
        i = i + 1;
    }
    true
}

pub open spec fn name_text(n: Seq<SegmentView>) -> Seq<char> {
    canonical_in(n, canonical_style())
}

/// A name as a path component.
pub open spec fn name_part(n: Seq<SegmentView>) -> Seq<char> {
    encoded_component(name_text(n))
}

/// A module path or package as a path component.
pub open spec fn path_part(p: Seq<Seq<SegmentView>>) -> Seq<char> {
    encoded_component(path_canonical(p))
}

/// What a name component reads as.
pub open spec fn parse_name_spec(v: Seq<char>) -> Result<Seq<SegmentView>, UriErrorView> {
    match decoded_component(v) {
        Err(e) => Err(e),
        Ok(d) => match parse_canonical(d) {
            Err(_) => Err(UriErrorView::Invalid("invalid name"@)),
            Ok(n) => if name_text(n) != d {
                Err(UriErrorView::Invalid("noncanonical name"@))
            } else {
                Ok(n)
            },
        },
    }
}

/// What a package name reads as.
pub open spec fn parse_package_spec(v: Seq<char>) -> Result<Seq<Seq<SegmentView>>, UriErrorView> {
    match parse_path(v) {
        Err(_) => Err(UriErrorView::Invalid("invalid package name"@)),
        Ok(p) => if p.len() == 0 || path_canonical(p) != v {
            Err(UriErrorView::Invalid("noncanonical package name"@))
        } else {
            Ok(p)
        },
    }
}

/// What a module path component reads as.
pub open spec fn parse_module_path(v: Seq<char>) -> Result<Seq<Seq<SegmentView>>, UriErrorView> {
    match decoded_component(v) {
        Err(e) => Err(e),
        Ok(d) => match parse_path(d) {
            Err(_) => Err(UriErrorView::Invalid("invalid module path"@)),
            Ok(p) => if p.len() == 0 || path_canonical(p) != d {
                Err(UriErrorView::Invalid("noncanonical module path"@))
            } else {
                Ok(p)
            },
        },
    }
}

fn name_part_chars(n: &Name) -> (r: Vec<char>)
    ensures
        r@ == name_part(n@),
{
    let s = n.to_canonical_string();
    encode_component(s.as_str())
}

fn path_part_chars(p: &Path) -> (r: Vec<char>)
    ensures
        r@ == path_part(p@),
{
    let s = p.to_canonical_string();
    encode_component(s.as_str())
}

fn package_part_chars(p: &PackageName) -> (r: Vec<char>)
    ensures
        r@ == path_part(p@),
{
    let s = p.to_canonical_string();
    encode_component(s.as_str())
}

fn parse_name_part(v: &Vec<char>) -> (r: Result<Name, NodeUriError>)
    ensures
        match r {
            Ok(n) => parse_name_spec(v@) == Ok::<Seq<SegmentView>, UriErrorView>(n@),
            Err(e) => parse_name_spec(v@) == Err::<Seq<SegmentView>, UriErrorView>(e@),
        },
{
    let d = match decode_component(v.as_slice()) {
        Ok(d) => d,
        Err(e) => {
            return Err(e);
        },
    };
    let ds = string_of(d.as_slice());
    match Name::from_canonical_string(ds.as_str()) {
        Err(_) => Err(invalid("invalid name")),
        Ok(n) => {
            let c = n.to_canonical_string();
            if !str_eq(c.as_str(), ds.as_str()) {
                Err(invalid("noncanonical name"))
            } else {
                Ok(n)
            }
        },
    }
}

fn parse_package_text(v: &[char]) -> (r: Result<PackageName, NodeUriError>)
    ensures
        match r {
            Ok(p) => parse_package_spec(v@) == Ok::<Seq<Seq<SegmentView>>, UriErrorView>(p@),
            Err(e) => parse_package_spec(v@) == Err::<Seq<Seq<SegmentView>>, UriErrorView>(e@),
        },
{
    let s = string_of(v);
    match PackageName::from_canonical_string(s.as_str()) {
        Err(_) => Err(invalid("invalid package name")),
        Ok(p) => {
            let c = p.to_canonical_string();
            if p.is_empty() || !str_eq(c.as_str(), s.as_str()) {
                Err(invalid("noncanonical package name"))
            } else {
                Ok(p)
            }
        },
    }
}

fn parse_module_part(v: &Vec<char>) -> (r: Result<Path, NodeUriError>)
    ensures
        match r {
            Ok(p) => parse_module_path(v@) == Ok::<Seq<Seq<SegmentView>>, UriErrorView>(p@),
            Err(e) => parse_module_path(v@) == Err::<Seq<Seq<SegmentView>>, UriErrorView>(e@),
        },
{
    let d = match decode_component(v.as_slice()) {
        Ok(d) => d,
        Err(e) => {
            return Err(e);
        },
    };
    let ds = string_of(d.as_slice());
    match Path::from_canonical_string(ds.as_str()) {
        Err(_) => Err(invalid("invalid module path")),
        Ok(p) => {
            let c = p.to_canonical_string();
            if p.is_empty() || !str_eq(c.as_str(), ds.as_str()) {
                Err(invalid("noncanonical module path"))
            } else {
                Ok(p)
            }
        },
    }
}

fn push_part(out: &mut Vec<Vec<char>>, part: Vec<char>)
    ensures
        views(final(out)@) == views(old(out)@).push(part@),
{
    let ghost before = out@;
    out.push(part);
    assert(views(out@) =~= views(before).push(part@));
}

fn is_keyword(t: Option<Keyword>, k: Keyword) -> (r: bool)
    ensures
        r == (t == Some(k)),
{
    match t {
        Some(x) => x == k,
        None => false,
    }
}


// ---------------------------------------------------------------------------
// Steps
// ---------------------------------------------------------------------------


/// One typed child selection. Variants carry only the name or index the role needs.
#[derive(Debug, Clone, PartialEq, Eq, Hash)]
pub enum NodeStep {
    TypeExpression,
    Body,
    ValueInputType(Name),
    ValueInputAnnotation(Name),
    ValueOutputType,
    DerivedBaseType,
    PartialTypeExpression,
    CustomConstructor(Name),
    ConstructorArgument(usize),
    RecordField(Name),
    ExtensibleRecordField(Name),
    TypeFunctionParameter,
    TypeFunctionResult,
    ReferenceArgument(usize),
    ApplyFunction,
    ApplyArgument,
    FieldSubject,
    DestructurePattern,
    DestructureValue,
    DestructureBody,
    IfCondition,
    IfThen,
    IfElse,
    LambdaPattern,
    LambdaBody,
    LetDefinition(Name),
    LetBody,
    ListElement(usize),
    PatternMatchSubject,
    TupleElement(usize),
    PatternMatchCasePattern(usize),
    PatternMatchCaseBody(usize),
    UpdateSubject,
    UpdateField(Name),
    AsPatternChild,
    PatternTupleElement(usize),
    PatternConstructorArgument(usize),
    HeadTailHead,
    HeadTailTail,
    ExternalFallback,
    IncompletePartialBody,
    HoleExpectedType,
}

/// A step's content as plain values.
pub enum StepView {
    TypeExpression,
    Body,
    ValueInputType(Seq<SegmentView>),
    ValueInputAnnotation(Seq<SegmentView>),
    ValueOutputType,
    DerivedBaseType,
    PartialTypeExpression,
    CustomConstructor(Seq<SegmentView>),
    ConstructorArgument(usize),
    RecordField(Seq<SegmentView>),
    ExtensibleRecordField(Seq<SegmentView>),
    TypeFunctionParameter,
    TypeFunctionResult,
    ReferenceArgument(usize),
    ApplyFunction,
    ApplyArgument,
    FieldSubject,
    DestructurePattern,
    DestructureValue,
    DestructureBody,
    IfCondition,
    IfThen,
    IfElse,
    LambdaPattern,
    LambdaBody,
    LetDefinition(Seq<SegmentView>),
    LetBody,
    ListElement(usize),
    PatternMatchSubject,
    TupleElement(usize),
    PatternMatchCasePattern(usize),
    PatternMatchCaseBody(usize),
    UpdateSubject,
    UpdateField(Seq<SegmentView>),
    AsPatternChild,
    PatternTupleElement(usize),
    PatternConstructorArgument(usize),
    HeadTailHead,
    HeadTailTail,
    ExternalFallback,
    IncompletePartialBody,
    HoleExpectedType,
}

impl View for NodeStep {
    type V = StepView;

    open spec fn view(&self) -> StepView {
        match self {
            NodeStep::TypeExpression => StepView::TypeExpression,
            NodeStep::Body => StepView::Body,
            NodeStep::ValueInputType(n) => StepView::ValueInputType(n@),
            NodeStep::ValueInputAnnotation(n) => StepView::ValueInputAnnotation(n@),
            NodeStep::ValueOutputType => StepView::ValueOutputType,
            NodeStep::DerivedBaseType => StepView::DerivedBaseType,
            NodeStep::PartialTypeExpression => StepView::PartialTypeExpression,
            NodeStep::CustomConstructor(n) => StepView::CustomConstructor(n@),
            NodeStep::ConstructorArgument(i) => StepView::ConstructorArgument(*i),
            NodeStep::RecordField(n) => StepView::RecordField(n@),
            NodeStep::ExtensibleRecordField(n) => StepView::ExtensibleRecordField(n@),
            NodeStep::TypeFunctionParameter => StepView::TypeFunctionParameter,
            NodeStep::TypeFunctionResult => StepView::TypeFunctionResult,
            NodeStep::ReferenceArgument(i) => StepView::ReferenceArgument(*i),
            NodeStep::ApplyFunction => StepView::ApplyFunction,
            NodeStep::ApplyArgument => StepView::ApplyArgument,
            NodeStep::FieldSubject => StepView::FieldSubject,
            NodeStep::DestructurePattern => StepView::DestructurePattern,
            NodeStep::DestructureValue => StepView::DestructureValue,
            NodeStep::DestructureBody => StepView::DestructureBody,
            NodeStep::IfCondition => StepView::IfCondition,
            NodeStep::IfThen => StepView::IfThen,
            NodeStep::IfElse => StepView::IfElse,
            NodeStep::LambdaPattern => StepView::LambdaPattern,
            NodeStep::LambdaBody => StepView::LambdaBody,
            NodeStep::LetDefinition(n) => StepView::LetDefinition(n@),
            NodeStep::LetBody => StepView::LetBody,
            NodeStep::ListElement(i) => StepView::ListElement(*i),
            NodeStep::PatternMatchSubject => StepView::PatternMatchSubject,
            NodeStep::TupleElement(i) => StepView::TupleElement(*i),
            NodeStep::PatternMatchCasePattern(i) => StepView::PatternMatchCasePattern(*i),
            NodeStep::PatternMatchCaseBody(i) => StepView::PatternMatchCaseBody(*i),
            NodeStep::UpdateSubject => StepView::UpdateSubject,
            NodeStep::UpdateField(n) => StepView::UpdateField(n@),
            NodeStep::AsPatternChild => StepView::AsPatternChild,
            NodeStep::PatternTupleElement(i) => StepView::PatternTupleElement(*i),
            NodeStep::PatternConstructorArgument(i) => StepView::PatternConstructorArgument(*i),
            NodeStep::HeadTailHead => StepView::HeadTailHead,
            NodeStep::HeadTailTail => StepView::HeadTailTail,
            NodeStep::ExternalFallback => StepView::ExternalFallback,
            NodeStep::IncompletePartialBody => StepView::IncompletePartialBody,
            NodeStep::HoleExpectedType => StepView::HoleExpectedType,
        }
    }
}

/// Whether a step selects an ordered child whose identity needs a guard.
pub open spec fn positional(s: StepView) -> bool {
    match s {
        StepView::ConstructorArgument(_) => true,
        StepView::ReferenceArgument(_) => true,
        StepView::ListElement(_) => true,
        StepView::TupleElement(_) => true,
        StepView::PatternMatchCasePattern(_) => true,
        StepView::PatternMatchCaseBody(_) => true,
        StepView::PatternTupleElement(_) => true,
        StepView::PatternConstructorArgument(_) => true,
        _ => false,
    }
}

/// The `/`-separated parts a step is written as.
pub open spec fn step_parts(s: StepView) -> Seq<Seq<char>> {
    match s {
        StepView::TypeExpression => seq![keyword_spelling(Keyword::TypeExp)],
        StepView::Body => seq![keyword_spelling(Keyword::Body)],
        StepView::ValueInputType(n) => seq![keyword_spelling(Keyword::Input), name_part(n)],
        StepView::ValueInputAnnotation(n) => seq![keyword_spelling(Keyword::InputAnnotation), name_part(n)],
        StepView::ValueOutputType => seq![keyword_spelling(Keyword::Output)],
        StepView::DerivedBaseType => seq![keyword_spelling(Keyword::Derived), keyword_spelling(Keyword::BaseType)],
        StepView::PartialTypeExpression => seq![keyword_spelling(Keyword::Incomplete), keyword_spelling(Keyword::PartialType)],
        StepView::CustomConstructor(n) => seq![keyword_spelling(Keyword::Constructor), name_part(n)],
        StepView::ConstructorArgument(i) => seq![keyword_spelling(Keyword::Argument), decimal(i as nat)],
        StepView::RecordField(n) => seq![keyword_spelling(Keyword::Record), keyword_spelling(Keyword::Field), name_part(n)],
        StepView::ExtensibleRecordField(n) => seq![keyword_spelling(Keyword::ExtensibleRecord), keyword_spelling(Keyword::Field), name_part(n)],
        StepView::TypeFunctionParameter => seq![keyword_spelling(Keyword::Function), keyword_spelling(Keyword::Parameter)],
        StepView::TypeFunctionResult => seq![keyword_spelling(Keyword::Function), keyword_spelling(Keyword::ResultRole)],
        StepView::ReferenceArgument(i) => seq![keyword_spelling(Keyword::Reference), keyword_spelling(Keyword::Argument), decimal(i as nat)],
        StepView::ApplyFunction => seq![keyword_spelling(Keyword::Apply), keyword_spelling(Keyword::Function)],
        StepView::ApplyArgument => seq![keyword_spelling(Keyword::Apply), keyword_spelling(Keyword::Argument)],
        StepView::FieldSubject => seq![keyword_spelling(Keyword::Field), keyword_spelling(Keyword::Subject)],
        StepView::DestructurePattern => seq![keyword_spelling(Keyword::Destructure), keyword_spelling(Keyword::Pattern)],
        StepView::DestructureValue => seq![keyword_spelling(Keyword::Destructure), keyword_spelling(Keyword::Value)],
        StepView::DestructureBody => seq![keyword_spelling(Keyword::Destructure), keyword_spelling(Keyword::Body)],
        StepView::IfCondition => seq![keyword_spelling(Keyword::If), keyword_spelling(Keyword::Condition)],
        StepView::IfThen => seq![keyword_spelling(Keyword::If), keyword_spelling(Keyword::Then)],
        StepView::IfElse => seq![keyword_spelling(Keyword::If), keyword_spelling(Keyword::Else)],
        StepView::LambdaPattern => seq![keyword_spelling(Keyword::Lambda), keyword_spelling(Keyword::Pattern)],
        StepView::LambdaBody => seq![keyword_spelling(Keyword::Lambda), keyword_spelling(Keyword::Body)],
        StepView::LetDefinition(n) => seq![keyword_spelling(Keyword::Let), keyword_spelling(Keyword::Definition), name_part(n)],
        StepView::LetBody => seq![keyword_spelling(Keyword::Let), keyword_spelling(Keyword::Body)],
        StepView::ListElement(i) => seq![keyword_spelling(Keyword::List), keyword_spelling(Keyword::Element), decimal(i as nat)],
        StepView::PatternMatchSubject => seq![keyword_spelling(Keyword::PatternMatch), keyword_spelling(Keyword::Subject)],
        StepView::TupleElement(i) => seq![keyword_spelling(Keyword::Tuple), keyword_spelling(Keyword::Element), decimal(i as nat)],
        StepView::PatternMatchCasePattern(i) => seq![keyword_spelling(Keyword::PatternMatch), keyword_spelling(Keyword::Case), decimal(i as nat), keyword_spelling(Keyword::Pattern)],
        StepView::PatternMatchCaseBody(i) => seq![keyword_spelling(Keyword::PatternMatch), keyword_spelling(Keyword::Case), decimal(i as nat), keyword_spelling(Keyword::Body)],
        StepView::UpdateSubject => seq![keyword_spelling(Keyword::Update), keyword_spelling(Keyword::Subject)],
        StepView::UpdateField(n) => seq![keyword_spelling(Keyword::Update), keyword_spelling(Keyword::Field), name_part(n)],
        StepView::AsPatternChild => seq![keyword_spelling(Keyword::AsPattern), keyword_spelling(Keyword::Pattern)],
        StepView::PatternTupleElement(i) => seq![keyword_spelling(Keyword::TuplePattern), keyword_spelling(Keyword::Element), decimal(i as nat)],
        StepView::PatternConstructorArgument(i) => seq![keyword_spelling(Keyword::ConstructorPattern), keyword_spelling(Keyword::Argument), decimal(i as nat)],
        StepView::HeadTailHead => seq![keyword_spelling(Keyword::HeadTail), keyword_spelling(Keyword::Head)],
        StepView::HeadTailTail => seq![keyword_spelling(Keyword::HeadTail), keyword_spelling(Keyword::Tail)],
        StepView::ExternalFallback => seq![keyword_spelling(Keyword::External), keyword_spelling(Keyword::Fallback)],
        StepView::IncompletePartialBody => seq![keyword_spelling(Keyword::Incomplete), keyword_spelling(Keyword::PartialBody)],
        StepView::HoleExpectedType => seq![keyword_spelling(Keyword::Hole), keyword_spelling(Keyword::ExpectedType)],
    }
}

/// The step written at part `i` of `ps`, and how many parts it takes.
pub open spec fn parse_step(ps: Seq<Seq<char>>, i: int) -> Result<(StepView, int), UriErrorView> {
    if i + 1 <= ps.len() && keyword_of(ps[i + 0]) == Some(Keyword::TypeExp) {
        Ok((StepView::TypeExpression, 1))
    } else if i + 1 <= ps.len() && keyword_of(ps[i + 0]) == Some(Keyword::Body) {
        Ok((StepView::Body, 1))
    } else if i + 2 <= ps.len() && keyword_of(ps[i + 0]) == Some(Keyword::Input) {
        match parse_name_spec(ps[i + 1]) {
            Ok(x) => Ok((StepView::ValueInputType(x), 2)),
            Err(e) => Err(e),
        }
    } else if i + 2 <= ps.len() && keyword_of(ps[i + 0]) == Some(Keyword::InputAnnotation) {
        match parse_name_spec(ps[i + 1]) {
            Ok(x) => Ok((StepView::ValueInputAnnotation(x), 2)),
            Err(e) => Err(e),
        }
    } else if i + 1 <= ps.len() && keyword_of(ps[i + 0]) == Some(Keyword::Output) {
        Ok((StepView::ValueOutputType, 1))
    } else if i + 2 <= ps.len() && keyword_of(ps[i + 0]) == Some(Keyword::Derived) && keyword_of(ps[i + 1]) == Some(Keyword::BaseType) {
        Ok((StepView::DerivedBaseType, 2))
    } else if i + 2 <= ps.len() && keyword_of(ps[i + 0]) == Some(Keyword::Incomplete) && keyword_of(ps[i + 1]) == Some(Keyword::PartialType) {
        Ok((StepView::PartialTypeExpression, 2))
    } else if i + 2 <= ps.len() && keyword_of(ps[i + 0]) == Some(Keyword::Constructor) {
        match parse_name_spec(ps[i + 1]) {
            Ok(x) => Ok((StepView::CustomConstructor(x), 2)),
            Err(e) => Err(e),
        }
    } else if i + 2 <= ps.len() && keyword_of(ps[i + 0]) == Some(Keyword::Argument) {
        match parse_index_spec(ps[i + 1]) {
            Ok(x) => Ok((StepView::ConstructorArgument(x), 2)),
            Err(e) => Err(e),
        }
    } else if i + 3 <= ps.len() && keyword_of(ps[i + 0]) == Some(Keyword::Record) && keyword_of(ps[i + 1]) == Some(Keyword::Field) {
        match parse_name_spec(ps[i + 2]) {
            Ok(x) => Ok((StepView::RecordField(x), 3)),
            Err(e) => Err(e),
        }
    } else if i + 3 <= ps.len() && keyword_of(ps[i + 0]) == Some(Keyword::ExtensibleRecord) && keyword_of(ps[i + 1]) == Some(Keyword::Field) {
        match parse_name_spec(ps[i + 2]) {
            Ok(x) => Ok((StepView::ExtensibleRecordField(x), 3)),
            Err(e) => Err(e),
        }
    } else if i + 2 <= ps.len() && keyword_of(ps[i + 0]) == Some(Keyword::Function) && keyword_of(ps[i + 1]) == Some(Keyword::Parameter) {
        Ok((StepView::TypeFunctionParameter, 2))
    } else if i + 2 <= ps.len() && keyword_of(ps[i + 0]) == Some(Keyword::Function) && keyword_of(ps[i + 1]) == Some(Keyword::ResultRole) {
        Ok((StepView::TypeFunctionResult, 2))
    } else if i + 3 <= ps.len() && keyword_of(ps[i + 0]) == Some(Keyword::Reference) && keyword_of(ps[i + 1]) == Some(Keyword::Argument) {
        match parse_index_spec(ps[i + 2]) {
            Ok(x) => Ok((StepView::ReferenceArgument(x), 3)),
            Err(e) => Err(e),
        }
    } else if i + 2 <= ps.len() && keyword_of(ps[i + 0]) == Some(Keyword::Apply) && keyword_of(ps[i + 1]) == Some(Keyword::Function) {
        Ok((StepView::ApplyFunction, 2))
    } else if i + 2 <= ps.len() && keyword_of(ps[i + 0]) == Some(Keyword::Apply) && keyword_of(ps[i + 1]) == Some(Keyword::Argument) {
        Ok((StepView::ApplyArgument, 2))
    } else if i + 2 <= ps.len() && keyword_of(ps[i + 0]) == Some(Keyword::Field) && keyword_of(ps[i + 1]) == Some(Keyword::Subject) {
        Ok((StepView::FieldSubject, 2))
    } else if i + 2 <= ps.len() && keyword_of(ps[i + 0]) == Some(Keyword::Destructure) && keyword_of(ps[i + 1]) == Some(Keyword::Pattern) {
        Ok((StepView::DestructurePattern, 2))
    } else if i + 2 <= ps.len() && keyword_of(ps[i + 0]) == Some(Keyword::Destructure) && keyword_of(ps[i + 1]) == Some(Keyword::Value) {
        Ok((StepView::DestructureValue, 2))
    } else if i + 2 <= ps.len() && keyword_of(ps[i + 0]) == Some(Keyword::Destructure) && keyword_of(ps[i + 1]) == Some(Keyword::Body) {
        Ok((StepView::DestructureBody, 2))
    } else if i + 2 <= ps.len() && keyword_of(ps[i + 0]) == Some(Keyword::If) && keyword_of(ps[i + 1]) == Some(Keyword::Condition) {
        Ok((StepView::IfCondition, 2))
    } else if i + 2 <= ps.len() && keyword_of(ps[i + 0]) == Some(Keyword::If) && keyword_of(ps[i + 1]) == Some(Keyword::Then) {
        Ok((StepView::IfThen, 2))
    } else if i + 2 <= ps.len() && keyword_of(ps[i + 0]) == Some(Keyword::If) && keyword_of(ps[i + 1]) == Some(Keyword::Else) {
        Ok((StepView::IfElse, 2))
    } else if i + 2 <= ps.len() && keyword_of(ps[i + 0]) == Some(Keyword::Lambda) && keyword_of(ps[i + 1]) == Some(Keyword::Pattern) {
        Ok((StepView::LambdaPattern, 2))
    } else if i + 2 <= ps.len() && keyword_of(ps[i + 0]) == Some(Keyword::Lambda) && keyword_of(ps[i + 1]) == Some(Keyword::Body) {
        Ok((StepView::LambdaBody, 2))
    } else if i + 3 <= ps.len() && keyword_of(ps[i + 0]) == Some(Keyword::Let) && keyword_of(ps[i + 1]) == Some(Keyword::Definition) {
        match parse_name_spec(ps[i + 2]) {
            Ok(x) => Ok((StepView::LetDefinition(x), 3)),
            Err(e) => Err(e),
        }
    } else if i + 2 <= ps.len() && keyword_of(ps[i + 0]) == Some(Keyword::Let) && keyword_of(ps[i + 1]) == Some(Keyword::Body) {
        Ok((StepView::LetBody, 2))
    } else if i + 3 <= ps.len() && keyword_of(ps[i + 0]) == Some(Keyword::List) && keyword_of(ps[i + 1]) == Some(Keyword::Element) {
        match parse_index_spec(ps[i + 2]) {
            Ok(x) => Ok((StepView::ListElement(x), 3)),
            Err(e) => Err(e),
        }
    } else if i + 2 <= ps.len() && keyword_of(ps[i + 0]) == Some(Keyword::PatternMatch) && keyword_of(ps[i + 1]) == Some(Keyword::Subject) {
        Ok((StepView::PatternMatchSubject, 2))
    } else if i + 3 <= ps.len() && keyword_of(ps[i + 0]) == Some(Keyword::Tuple) && keyword_of(ps[i + 1]) == Some(Keyword::Element) {
        match parse_index_spec(ps[i + 2]) {
            Ok(x) => Ok((StepView::TupleElement(x), 3)),
            Err(e) => Err(e),
        }
    } else if i + 4 <= ps.len() && keyword_of(ps[i + 0]) == Some(Keyword::PatternMatch) && keyword_of(ps[i + 1]) == Some(Keyword::Case) && keyword_of(ps[i + 3]) == Some(Keyword::Pattern) {
        match parse_index_spec(ps[i + 2]) {
            Ok(x) => Ok((StepView::PatternMatchCasePattern(x), 4)),
            Err(e) => Err(e),
        }
    } else if i + 4 <= ps.len() && keyword_of(ps[i + 0]) == Some(Keyword::PatternMatch) && keyword_of(ps[i + 1]) == Some(Keyword::Case) && keyword_of(ps[i + 3]) == Some(Keyword::Body) {
        match parse_index_spec(ps[i + 2]) {
            Ok(x) => Ok((StepView::PatternMatchCaseBody(x), 4)),
            Err(e) => Err(e),
        }
    } else if i + 2 <= ps.len() && keyword_of(ps[i + 0]) == Some(Keyword::Update) && keyword_of(ps[i + 1]) == Some(Keyword::Subject) {
        Ok((StepView::UpdateSubject, 2))
    } else if i + 3 <= ps.len() && keyword_of(ps[i + 0]) == Some(Keyword::Update) && keyword_of(ps[i + 1]) == Some(Keyword::Field) {
        match parse_name_spec(ps[i + 2]) {
            Ok(x) => Ok((StepView::UpdateField(x), 3)),
            Err(e) => Err(e),
        }
    } else if i + 2 <= ps.len() && keyword_of(ps[i + 0]) == Some(Keyword::AsPattern) && keyword_of(ps[i + 1]) == Some(Keyword::Pattern) {
        Ok((StepView::AsPatternChild, 2))
    } else if i + 3 <= ps.len() && keyword_of(ps[i + 0]) == Some(Keyword::TuplePattern) && keyword_of(ps[i + 1]) == Some(Keyword::Element) {
        match parse_index_spec(ps[i + 2]) {
            Ok(x) => Ok((StepView::PatternTupleElement(x), 3)),
            Err(e) => Err(e),
        }
    } else if i + 3 <= ps.len() && keyword_of(ps[i + 0]) == Some(Keyword::ConstructorPattern) && keyword_of(ps[i + 1]) == Some(Keyword::Argument) {
        match parse_index_spec(ps[i + 2]) {
            Ok(x) => Ok((StepView::PatternConstructorArgument(x), 3)),
            Err(e) => Err(e),
        }
    } else if i + 2 <= ps.len() && keyword_of(ps[i + 0]) == Some(Keyword::HeadTail) && keyword_of(ps[i + 1]) == Some(Keyword::Head) {
        Ok((StepView::HeadTailHead, 2))
    } else if i + 2 <= ps.len() && keyword_of(ps[i + 0]) == Some(Keyword::HeadTail) && keyword_of(ps[i + 1]) == Some(Keyword::Tail) {
        Ok((StepView::HeadTailTail, 2))
    } else if i + 2 <= ps.len() && keyword_of(ps[i + 0]) == Some(Keyword::External) && keyword_of(ps[i + 1]) == Some(Keyword::Fallback) {
        Ok((StepView::ExternalFallback, 2))
    } else if i + 2 <= ps.len() && keyword_of(ps[i + 0]) == Some(Keyword::Incomplete) && keyword_of(ps[i + 1]) == Some(Keyword::PartialBody) {
        Ok((StepView::IncompletePartialBody, 2))
    } else if i + 2 <= ps.len() && keyword_of(ps[i + 0]) == Some(Keyword::Hole) && keyword_of(ps[i + 1]) == Some(Keyword::ExpectedType) {
        Ok((StepView::HoleExpectedType, 2))
    } else {
        Err(UriErrorView::Invalid("unknown semantic child role"@))
    }
}

/// Every name a step carries is valid.
pub open spec fn step_ok(s: StepView) -> bool {
    match s {
        StepView::ValueInputType(n) => valid_name(n),
        StepView::ValueInputAnnotation(n) => valid_name(n),
        StepView::CustomConstructor(n) => valid_name(n),
        StepView::RecordField(n) => valid_name(n),
        StepView::ExtensibleRecordField(n) => valid_name(n),
        StepView::LetDefinition(n) => valid_name(n),
        StepView::UpdateField(n) => valid_name(n),
        _ => true,
    }
}

impl NodeStep {
    /// Whether this step selects an ordered child whose identity needs a guard.
    pub fn is_positional(&self) -> (r: bool)
        ensures
            r == positional(self@),
    {
        match self {
            NodeStep::ConstructorArgument(_) => true,
            NodeStep::ReferenceArgument(_) => true,
            NodeStep::ListElement(_) => true,
            NodeStep::TupleElement(_) => true,
            NodeStep::PatternMatchCasePattern(_) => true,
            NodeStep::PatternMatchCaseBody(_) => true,
            NodeStep::PatternTupleElement(_) => true,
            NodeStep::PatternConstructorArgument(_) => true,
            _ => false,
        }
    }

    /// A step with the same view.
    pub fn duplicate(&self) -> (r: NodeStep)
        ensures
            r@ == self@,
    {
        match self {
            NodeStep::TypeExpression => NodeStep::TypeExpression,
            NodeStep::Body => NodeStep::Body,
            NodeStep::ValueInputType(n) => NodeStep::ValueInputType(n.duplicate()),
            NodeStep::ValueInputAnnotation(n) => NodeStep::ValueInputAnnotation(n.duplicate()),
            NodeStep::ValueOutputType => NodeStep::ValueOutputType,
            NodeStep::DerivedBaseType => NodeStep::DerivedBaseType,
            NodeStep::PartialTypeExpression => NodeStep::PartialTypeExpression,
            NodeStep::CustomConstructor(n) => NodeStep::CustomConstructor(n.duplicate()),
            NodeStep::ConstructorArgument(i) => NodeStep::ConstructorArgument(*i),
            NodeStep::RecordField(n) => NodeStep::RecordField(n.duplicate()),
            NodeStep::ExtensibleRecordField(n) => NodeStep::ExtensibleRecordField(n.duplicate()),
            NodeStep::TypeFunctionParameter => NodeStep::TypeFunctionParameter,
            NodeStep::TypeFunctionResult => NodeStep::TypeFunctionResult,
            NodeStep::ReferenceArgument(i) => NodeStep::ReferenceArgument(*i),
            NodeStep::ApplyFunction => NodeStep::ApplyFunction,
            NodeStep::ApplyArgument => NodeStep::ApplyArgument,
            NodeStep::FieldSubject => NodeStep::FieldSubject,
            NodeStep::DestructurePattern => NodeStep::DestructurePattern,
            NodeStep::DestructureValue => NodeStep::DestructureValue,
            NodeStep::DestructureBody => NodeStep::DestructureBody,
            NodeStep::IfCondition => NodeStep::IfCondition,
            NodeStep::IfThen => NodeStep::IfThen,
            NodeStep::IfElse => NodeStep::IfElse,
            NodeStep::LambdaPattern => NodeStep::LambdaPattern,
            NodeStep::LambdaBody => NodeStep::LambdaBody,
            NodeStep::LetDefinition(n) => NodeStep::LetDefinition(n.duplicate()),
            NodeStep::LetBody => NodeStep::LetBody,
            NodeStep::ListElement(i) => NodeStep::ListElement(*i),
            NodeStep::PatternMatchSubject => NodeStep::PatternMatchSubject,
            NodeStep::TupleElement(i) => NodeStep::TupleElement(*i),
            NodeStep::PatternMatchCasePattern(i) => NodeStep::PatternMatchCasePattern(*i),
            NodeStep::PatternMatchCaseBody(i) => NodeStep::PatternMatchCaseBody(*i),
            NodeStep::UpdateSubject => NodeStep::UpdateSubject,
            NodeStep::UpdateField(n) => NodeStep::UpdateField(n.duplicate()),
            NodeStep::AsPatternChild => NodeStep::AsPatternChild,
            NodeStep::PatternTupleElement(i) => NodeStep::PatternTupleElement(*i),
            NodeStep::PatternConstructorArgument(i) => NodeStep::PatternConstructorArgument(*i),
            NodeStep::HeadTailHead => NodeStep::HeadTailHead,
            NodeStep::HeadTailTail => NodeStep::HeadTailTail,
            NodeStep::ExternalFallback => NodeStep::ExternalFallback,
            NodeStep::IncompletePartialBody => NodeStep::IncompletePartialBody,
            NodeStep::HoleExpectedType => NodeStep::HoleExpectedType,
        }
    }

    /// Whether two steps have the same view.
    pub fn same_as(&self, other: &NodeStep) -> (r: bool)
        ensures
            r == (self@ == other@),
    {
        match (self, other) {
            (NodeStep::TypeExpression, NodeStep::TypeExpression) => true,
            (NodeStep::Body, NodeStep::Body) => true,
            (NodeStep::ValueInputType(x), NodeStep::ValueInputType(y)) => x.same_as(y),
            (NodeStep::ValueInputAnnotation(x), NodeStep::ValueInputAnnotation(y)) => x.same_as(y),
            (NodeStep::ValueOutputType, NodeStep::ValueOutputType) => true,
            (NodeStep::DerivedBaseType, NodeStep::DerivedBaseType) => true,
            (NodeStep::PartialTypeExpression, NodeStep::PartialTypeExpression) => true,
            (NodeStep::CustomConstructor(x), NodeStep::CustomConstructor(y)) => x.same_as(y),
            (NodeStep::ConstructorArgument(x), NodeStep::ConstructorArgument(y)) => *x == *y,
            (NodeStep::RecordField(x), NodeStep::RecordField(y)) => x.same_as(y),
            (NodeStep::ExtensibleRecordField(x), NodeStep::ExtensibleRecordField(y)) => x.same_as(y),
            (NodeStep::TypeFunctionParameter, NodeStep::TypeFunctionParameter) => true,
            (NodeStep::TypeFunctionResult, NodeStep::TypeFunctionResult) => true,
            (NodeStep::ReferenceArgument(x), NodeStep::ReferenceArgument(y)) => *x == *y,
            (NodeStep::ApplyFunction, NodeStep::ApplyFunction) => true,
            (NodeStep::ApplyArgument, NodeStep::ApplyArgument) => true,
            (NodeStep::FieldSubject, NodeStep::FieldSubject) => true,
            (NodeStep::DestructurePattern, NodeStep::DestructurePattern) => true,
            (NodeStep::DestructureValue, NodeStep::DestructureValue) => true,
            (NodeStep::DestructureBody, NodeStep::DestructureBody) => true,
            (NodeStep::IfCondition, NodeStep::IfCondition) => true,
            (NodeStep::IfThen, NodeStep::IfThen) => true,
            (NodeStep::IfElse, NodeStep::IfElse) => true,
            (NodeStep::LambdaPattern, NodeStep::LambdaPattern) => true,
            (NodeStep::LambdaBody, NodeStep::LambdaBody) => true,
            (NodeStep::LetDefinition(x), NodeStep::LetDefinition(y)) => x.same_as(y),
            (NodeStep::LetBody, NodeStep::LetBody) => true,
            (NodeStep::ListElement(x), NodeStep::ListElement(y)) => *x == *y,
            (NodeStep::PatternMatchSubject, NodeStep::PatternMatchSubject) => true,
            (NodeStep::TupleElement(x), NodeStep::TupleElement(y)) => *x == *y,
            (NodeStep::PatternMatchCasePattern(x), NodeStep::PatternMatchCasePattern(y)) => *x == *y,
            (NodeStep::PatternMatchCaseBody(x), NodeStep::PatternMatchCaseBody(y)) => *x == *y,
            (NodeStep::UpdateSubject, NodeStep::UpdateSubject) => true,
            (NodeStep::UpdateField(x), NodeStep::UpdateField(y)) => x.same_as(y),
            (NodeStep::AsPatternChild, NodeStep::AsPatternChild) => true,
            (NodeStep::PatternTupleElement(x), NodeStep::PatternTupleElement(y)) => *x == *y,
            (NodeStep::PatternConstructorArgument(x), NodeStep::PatternConstructorArgument(y)) => *x == *y,
            (NodeStep::HeadTailHead, NodeStep::HeadTailHead) => true,
            (NodeStep::HeadTailTail, NodeStep::HeadTailTail) => true,
            (NodeStep::ExternalFallback, NodeStep::ExternalFallback) => true,
            (NodeStep::IncompletePartialBody, NodeStep::IncompletePartialBody) => true,
            (NodeStep::HoleExpectedType, NodeStep::HoleExpectedType) => true,
            _ => false,
        }
    }
}

/// Appends the parts `s` is written as.
fn push_step_parts(out: &mut Vec<Vec<char>>, s: &NodeStep)
    ensures
        views(final(out)@) == views(old(out)@) + step_parts(s@),
{
    let ghost start = views(out@);
    match s {
        NodeStep::TypeExpression => {
            push_part(out, keyword_chars(Keyword::TypeExp));
        },
        NodeStep::Body => {
            push_part(out, keyword_chars(Keyword::Body));
        },
        NodeStep::ValueInputType(x) => {
            push_part(out, keyword_chars(Keyword::Input));
            push_part(out, name_part_chars(x));
        },
        NodeStep::ValueInputAnnotation(x) => {
            push_part(out, keyword_chars(Keyword::InputAnnotation));
            push_part(out, name_part_chars(x));
        },
        NodeStep::ValueOutputType => {
            push_part(out, keyword_chars(Keyword::Output));
        },
        NodeStep::DerivedBaseType => {
            push_part(out, keyword_chars(Keyword::Derived));
            push_part(out, keyword_chars(Keyword::BaseType));
        },
        NodeStep::PartialTypeExpression => {
            push_part(out, keyword_chars(Keyword::Incomplete));
            push_part(out, keyword_chars(Keyword::PartialType));
        },
        NodeStep::CustomConstructor(x) => {
            push_part(out, keyword_chars(Keyword::Constructor));
            push_part(out, name_part_chars(x));
        },
        NodeStep::ConstructorArgument(x) => {
            push_part(out, keyword_chars(Keyword::Argument));
            push_part(out, decimal_of(*x as u64));
        },
        NodeStep::RecordField(x) => {
            push_part(out, keyword_chars(Keyword::Record));
            push_part(out, keyword_chars(Keyword::Field));
            push_part(out, name_part_chars(x));
        },
        NodeStep::ExtensibleRecordField(x) => {
            push_part(out, keyword_chars(Keyword::ExtensibleRecord));
            push_part(out, keyword_chars(Keyword::Field));
            push_part(out, name_part_chars(x));
        },
        NodeStep::TypeFunctionParameter => {
            push_part(out, keyword_chars(Keyword::Function));
            push_part(out, keyword_chars(Keyword::Parameter));
        },
        NodeStep::TypeFunctionResult => {
            push_part(out, keyword_chars(Keyword::Function));
            push_part(out, keyword_chars(Keyword::ResultRole));
        },
        NodeStep::ReferenceArgument(x) => {
            push_part(out, keyword_chars(Keyword::Reference));
            push_part(out, keyword_chars(Keyword::Argument));
            push_part(out, decimal_of(*x as u64));
        },
        NodeStep::ApplyFunction => {
            push_part(out, keyword_chars(Keyword::Apply));
            push_part(out, keyword_chars(Keyword::Function));
        },
        NodeStep::ApplyArgument => {
            push_part(out, keyword_chars(Keyword::Apply));
            push_part(out, keyword_chars(Keyword::Argument));
        },
        NodeStep::FieldSubject => {
            push_part(out, keyword_chars(Keyword::Field));
            push_part(out, keyword_chars(Keyword::Subject));
        },
        NodeStep::DestructurePattern => {
            push_part(out, keyword_chars(Keyword::Destructure));
            push_part(out, keyword_chars(Keyword::Pattern));
        },
        NodeStep::DestructureValue => {
            push_part(out, keyword_chars(Keyword::Destructure));
            push_part(out, keyword_chars(Keyword::Value));
        },
        NodeStep::DestructureBody => {
            push_part(out, keyword_chars(Keyword::Destructure));
            push_part(out, keyword_chars(Keyword::Body));
        },
        NodeStep::IfCondition => {
            push_part(out, keyword_chars(Keyword::If));
            push_part(out, keyword_chars(Keyword::Condition));
        },
        NodeStep::IfThen => {
            push_part(out, keyword_chars(Keyword::If));
            push_part(out, keyword_chars(Keyword::Then));
        },
        NodeStep::IfElse => {
            push_part(out, keyword_chars(Keyword::If));
            push_part(out, keyword_chars(Keyword::Else));
        },
        NodeStep::LambdaPattern => {
            push_part(out, keyword_chars(Keyword::Lambda));
            push_part(out, keyword_chars(Keyword::Pattern));
        },
        NodeStep::LambdaBody => {
            push_part(out, keyword_chars(Keyword::Lambda));
            push_part(out, keyword_chars(Keyword::Body));
        },
        NodeStep::LetDefinition(x) => {
            push_part(out, keyword_chars(Keyword::Let));
            push_part(out, keyword_chars(Keyword::Definition));
            push_part(out, name_part_chars(x));
        },
        NodeStep::LetBody => {
            push_part(out, keyword_chars(Keyword::Let));
            push_part(out, keyword_chars(Keyword::Body));
        },
        NodeStep::ListElement(x) => {
            push_part(out, keyword_chars(Keyword::List));
            push_part(out, keyword_chars(Keyword::Element));
            push_part(out, decimal_of(*x as u64));
        },
        NodeStep::PatternMatchSubject => {
            push_part(out, keyword_chars(Keyword::PatternMatch));
            push_part(out, keyword_chars(Keyword::Subject));
        },
        NodeStep::TupleElement(x) => {
            push_part(out, keyword_chars(Keyword::Tuple));
            push_part(out, keyword_chars(Keyword::Element));
            push_part(out, decimal_of(*x as u64));
        },
        NodeStep::PatternMatchCasePattern(x) => {
            push_part(out, keyword_chars(Keyword::PatternMatch));
            push_part(out, keyword_chars(Keyword::Case));
            push_part(out, decimal_of(*x as u64));
            push_part(out, keyword_chars(Keyword::Pattern));
        },
        NodeStep::PatternMatchCaseBody(x) => {
            push_part(out, keyword_chars(Keyword::PatternMatch));
            push_part(out, keyword_chars(Keyword::Case));
            push_part(out, decimal_of(*x as u64));
            push_part(out, keyword_chars(Keyword::Body));
        },
        NodeStep::UpdateSubject => {
            push_part(out, keyword_chars(Keyword::Update));
            push_part(out, keyword_chars(Keyword::Subject));
        },
        NodeStep::UpdateField(x) => {
            push_part(out, keyword_chars(Keyword::Update));
            push_part(out, keyword_chars(Keyword::Field));
            push_part(out, name_part_chars(x));
        },
        NodeStep::AsPatternChild => {
            push_part(out, keyword_chars(Keyword::AsPattern));
            push_part(out, keyword_chars(Keyword::Pattern));
        },
        NodeStep::PatternTupleElement(x) => {
            push_part(out, keyword_chars(Keyword::TuplePattern));
            push_part(out, keyword_chars(Keyword::Element));
            push_part(out, decimal_of(*x as u64));
        },
        NodeStep::PatternConstructorArgument(x) => {
            push_part(out, keyword_chars(Keyword::ConstructorPattern));
            push_part(out, keyword_chars(Keyword::Argument));
            push_part(out, decimal_of(*x as u64));
        },
        NodeStep::HeadTailHead => {
            push_part(out, keyword_chars(Keyword::HeadTail));
            push_part(out, keyword_chars(Keyword::Head));
        },
        NodeStep::HeadTailTail => {
            push_part(out, keyword_chars(Keyword::HeadTail));
            push_part(out, keyword_chars(Keyword::Tail));
        },
        NodeStep::ExternalFallback => {
            push_part(out, keyword_chars(Keyword::External));
            push_part(out, keyword_chars(Keyword::Fallback));
        },
        NodeStep::IncompletePartialBody => {
            push_part(out, keyword_chars(Keyword::Incomplete));
            push_part(out, keyword_chars(Keyword::PartialBody));
        },
        NodeStep::HoleExpectedType => {
            push_part(out, keyword_chars(Keyword::Hole));
            push_part(out, keyword_chars(Keyword::ExpectedType));
        },
    }
    assert(views(out@) =~= start + step_parts(s@));
}

#[verifier::spinoff_prover]
#[verifier::rlimit(100)]
fn parse_step_at(parts: &Vec<Vec<char>>, toks: &Vec<Option<Keyword>>, i: usize) -> (r: Result<(NodeStep, usize), NodeUriError>)
    requires
        i < parts@.len(),
        toks@.len() == parts@.len(),
        forall|k: int| 0 <= k < parts@.len() ==> toks@[k] == keyword_of(#[trigger] parts@[k]@),
    ensures
        match r {
            Ok((s, n)) => parse_step(views(parts@), i as int) == Ok::<(StepView, int), UriErrorView>((s@, n as int)),
            Err(e) => parse_step(views(parts@), i as int) == Err::<(StepView, int), UriErrorView>(e@),
        },
{
    let ghost ps = views(parts@);
    let len = parts.len();
    proof {
        assert forall|k: int| 0 <= k < parts@.len() implies toks@[k] == keyword_of(ps[k]) by {
            assert(ps[k] == parts@[k]@);
        }
    }
    if len - i >= 1 && is_keyword(toks[i + 0], Keyword::TypeExp) {
        return Ok((NodeStep::TypeExpression, 1));
    }
    if len - i >= 1 && is_keyword(toks[i + 0], Keyword::Body) {
        return Ok((NodeStep::Body, 1));
    }
    if len - i >= 2 && is_keyword(toks[i + 0], Keyword::Input) {
        assert(ps[i + 1] == parts@[i + 1]@);
        return match parse_name_part(&parts[i + 1]) {
            Ok(x) => Ok((NodeStep::ValueInputType(x), 2)),
            Err(e) => Err(e),
        };
    }
    if len - i >= 2 && is_keyword(toks[i + 0], Keyword::InputAnnotation) {
        assert(ps[i + 1] == parts@[i + 1]@);
        return match parse_name_part(&parts[i + 1]) {
            Ok(x) => Ok((NodeStep::ValueInputAnnotation(x), 2)),
            Err(e) => Err(e),
        };
    }
    if len - i >= 1 && is_keyword(toks[i + 0], Keyword::Output) {
        return Ok((NodeStep::ValueOutputType, 1));
    }
    if len - i >= 2 && is_keyword(toks[i + 0], Keyword::Derived) && is_keyword(toks[i + 1], Keyword::BaseType) {
        return Ok((NodeStep::DerivedBaseType, 2));
    }
    if len - i >= 2 && is_keyword(toks[i + 0], Keyword::Incomplete) && is_keyword(toks[i + 1], Keyword::PartialType) {
        return Ok((NodeStep::PartialTypeExpression, 2));
    }
    if len - i >= 2 && is_keyword(toks[i + 0], Keyword::Constructor) {
        assert(ps[i + 1] == parts@[i + 1]@);
        return match parse_name_part(&parts[i + 1]) {
            Ok(x) => Ok((NodeStep::CustomConstructor(x), 2)),
            Err(e) => Err(e),
        };
    }
    if len - i >= 2 && is_keyword(toks[i + 0], Keyword::Argument) {
        assert(ps[i + 1] == parts@[i + 1]@);
        return match parse_index_part(&parts[i + 1]) {
            Ok(x) => Ok((NodeStep::ConstructorArgument(x), 2)),
            Err(e) => Err(e),
        };
    }
    if len - i >= 3 && is_keyword(toks[i + 0], Keyword::Record) && is_keyword(toks[i + 1], Keyword::Field) {
        assert(ps[i + 2] == parts@[i + 2]@);
        return match parse_name_part(&parts[i + 2]) {
            Ok(x) => Ok((NodeStep::RecordField(x), 3)),
            Err(e) => Err(e),
        };
    }
    if len - i >= 3 && is_keyword(toks[i + 0], Keyword::ExtensibleRecord) && is_keyword(toks[i + 1], Keyword::Field) {
        assert(ps[i + 2] == parts@[i + 2]@);
        return match parse_name_part(&parts[i + 2]) {
            Ok(x) => Ok((NodeStep::ExtensibleRecordField(x), 3)),
            Err(e) => Err(e),
        };
    }
    if len - i >= 2 && is_keyword(toks[i + 0], Keyword::Function) && is_keyword(toks[i + 1], Keyword::Parameter) {
        return Ok((NodeStep::TypeFunctionParameter, 2));
    }
    if len - i >= 2 && is_keyword(toks[i + 0], Keyword::Function) && is_keyword(toks[i + 1], Keyword::ResultRole) {
        return Ok((NodeStep::TypeFunctionResult, 2));
    }
    if len - i >= 3 && is_keyword(toks[i + 0], Keyword::Reference) && is_keyword(toks[i + 1], Keyword::Argument) {
        assert(ps[i + 2] == parts@[i + 2]@);
        return match parse_index_part(&parts[i + 2]) {
            Ok(x) => Ok((NodeStep::ReferenceArgument(x), 3)),
            Err(e) => Err(e),
        };
    }
    if len - i >= 2 && is_keyword(toks[i + 0], Keyword::Apply) && is_keyword(toks[i + 1], Keyword::Function) {
        return Ok((NodeStep::ApplyFunction, 2));
    }
    if len - i >= 2 && is_keyword(toks[i + 0], Keyword::Apply) && is_keyword(toks[i + 1], Keyword::Argument) {
        return Ok((NodeStep::ApplyArgument, 2));
    }
    if len - i >= 2 && is_keyword(toks[i + 0], Keyword::Field) && is_keyword(toks[i + 1], Keyword::Subject) {
        return Ok((NodeStep::FieldSubject, 2));
    }
    if len - i >= 2 && is_keyword(toks[i + 0], Keyword::Destructure) && is_keyword(toks[i + 1], Keyword::Pattern) {
        return Ok((NodeStep::DestructurePattern, 2));
    }
    if len - i >= 2 && is_keyword(toks[i + 0], Keyword::Destructure) && is_keyword(toks[i + 1], Keyword::Value) {
        return Ok((NodeStep::DestructureValue, 2));
    }
    if len - i >= 2 && is_keyword(toks[i + 0], Keyword::Destructure) && is_keyword(toks[i + 1], Keyword::Body) {
        return Ok((NodeStep::DestructureBody, 2));
    }
    if len - i >= 2 && is_keyword(toks[i + 0], Keyword::If) && is_keyword(toks[i + 1], Keyword::Condition) {
        return Ok((NodeStep::IfCondition, 2));
    }
    if len - i >= 2 && is_keyword(toks[i + 0], Keyword::If) && is_keyword(toks[i + 1], Keyword::Then) {
        return Ok((NodeStep::IfThen, 2));
    }
    if len - i >= 2 && is_keyword(toks[i + 0], Keyword::If) && is_keyword(toks[i + 1], Keyword::Else) {
        return Ok((NodeStep::IfElse, 2));
    }
    if len - i >= 2 && is_keyword(toks[i + 0], Keyword::Lambda) && is_keyword(toks[i + 1], Keyword::Pattern) {
        return Ok((NodeStep::LambdaPattern, 2));
    }
    if len - i >= 2 && is_keyword(toks[i + 0], Keyword::Lambda) && is_keyword(toks[i + 1], Keyword::Body) {
        return Ok((NodeStep::LambdaBody, 2));
    }
    if len - i >= 3 && is_keyword(toks[i + 0], Keyword::Let) && is_keyword(toks[i + 1], Keyword::Definition) {
        assert(ps[i + 2] == parts@[i + 2]@);
        return match parse_name_part(&parts[i + 2]) {
            Ok(x) => Ok((NodeStep::LetDefinition(x), 3)),
            Err(e) => Err(e),
        };
    }
    if len - i >= 2 && is_keyword(toks[i + 0], Keyword::Let) && is_keyword(toks[i + 1], Keyword::Body) {
        return Ok((NodeStep::LetBody, 2));
    }
    if len - i >= 3 && is_keyword(toks[i + 0], Keyword::List) && is_keyword(toks[i + 1], Keyword::Element) {
        assert(ps[i + 2] == parts@[i + 2]@);
        return match parse_index_part(&parts[i + 2]) {
            Ok(x) => Ok((NodeStep::ListElement(x), 3)),
            Err(e) => Err(e),
        };
    }
    if len - i >= 2 && is_keyword(toks[i + 0], Keyword::PatternMatch) && is_keyword(toks[i + 1], Keyword::Subject) {
        return Ok((NodeStep::PatternMatchSubject, 2));
    }
    if len - i >= 3 && is_keyword(toks[i + 0], Keyword::Tuple) && is_keyword(toks[i + 1], Keyword::Element) {
        assert(ps[i + 2] == parts@[i + 2]@);
        return match parse_index_part(&parts[i + 2]) {
            Ok(x) => Ok((NodeStep::TupleElement(x), 3)),
            Err(e) => Err(e),
        };
    }
    if len - i >= 4 && is_keyword(toks[i + 0], Keyword::PatternMatch) && is_keyword(toks[i + 1], Keyword::Case) && is_keyword(toks[i + 3], Keyword::Pattern) {
        assert(ps[i + 2] == parts@[i + 2]@);
        return match parse_index_part(&parts[i + 2]) {
            Ok(x) => Ok((NodeStep::PatternMatchCasePattern(x), 4)),
            Err(e) => Err(e),
        };
    }
    if len - i >= 4 && is_keyword(toks[i + 0], Keyword::PatternMatch) && is_keyword(toks[i + 1], Keyword::Case) && is_keyword(toks[i + 3], Keyword::Body) {
        assert(ps[i + 2] == parts@[i + 2]@);
        return match parse_index_part(&parts[i + 2]) {
            Ok(x) => Ok((NodeStep::PatternMatchCaseBody(x), 4)),
            Err(e) => Err(e),
        };
    }
    if len - i >= 2 && is_keyword(toks[i + 0], Keyword::Update) && is_keyword(toks[i + 1], Keyword::Subject) {
        return Ok((NodeStep::UpdateSubject, 2));
    }
    if len - i >= 3 && is_keyword(toks[i + 0], Keyword::Update) && is_keyword(toks[i + 1], Keyword::Field) {
        assert(ps[i + 2] == parts@[i + 2]@);
        return match parse_name_part(&parts[i + 2]) {
            Ok(x) => Ok((NodeStep::UpdateField(x), 3)),
            Err(e) => Err(e),
        };
    }
    if len - i >= 2 && is_keyword(toks[i + 0], Keyword::AsPattern) && is_keyword(toks[i + 1], Keyword::Pattern) {
        return Ok((NodeStep::AsPatternChild, 2));
    }
    if len - i >= 3 && is_keyword(toks[i + 0], Keyword::TuplePattern) && is_keyword(toks[i + 1], Keyword::Element) {
        assert(ps[i + 2] == parts@[i + 2]@);
        return match parse_index_part(&parts[i + 2]) {
            Ok(x) => Ok((NodeStep::PatternTupleElement(x), 3)),
            Err(e) => Err(e),
        };
    }
    if len - i >= 3 && is_keyword(toks[i + 0], Keyword::ConstructorPattern) && is_keyword(toks[i + 1], Keyword::Argument) {
        assert(ps[i + 2] == parts@[i + 2]@);
        return match parse_index_part(&parts[i + 2]) {
            Ok(x) => Ok((NodeStep::PatternConstructorArgument(x), 3)),
            Err(e) => Err(e),
        };
    }
    if len - i >= 2 && is_keyword(toks[i + 0], Keyword::HeadTail) && is_keyword(toks[i + 1], Keyword::Head) {
        return Ok((NodeStep::HeadTailHead, 2));
    }
    if len - i >= 2 && is_keyword(toks[i + 0], Keyword::HeadTail) && is_keyword(toks[i + 1], Keyword::Tail) {
        return Ok((NodeStep::HeadTailTail, 2));
    }
    if len - i >= 2 && is_keyword(toks[i + 0], Keyword::External) && is_keyword(toks[i + 1], Keyword::Fallback) {
        return Ok((NodeStep::ExternalFallback, 2));
    }
    if len - i >= 2 && is_keyword(toks[i + 0], Keyword::Incomplete) && is_keyword(toks[i + 1], Keyword::PartialBody) {
        return Ok((NodeStep::IncompletePartialBody, 2));
    }
    if len - i >= 2 && is_keyword(toks[i + 0], Keyword::Hole) && is_keyword(toks[i + 1], Keyword::ExpectedType) {
        return Ok((NodeStep::HoleExpectedType, 2));
    }
    Err(invalid("unknown semantic child role"))
}

// ---------------------------------------------------------------------------
// Artifacts, owners, roots and revisions
// ---------------------------------------------------------------------------

/// The artifact selected by the caller's resolution context.
#[derive(Debug, Clone, PartialEq, Eq, Hash)]
pub enum ArtifactSelector {
    /// One named package, possibly ambiguous until the context chooses a release.
    Package(PackageName),
    /// A caller-provided current working artifact alias.
    Workspace(String),
}

pub enum SelectorView {
    Package(Seq<Seq<SegmentView>>),
    Workspace(Seq<char>),
}

impl View for ArtifactSelector {
    type V = SelectorView;

    open spec fn view(&self) -> SelectorView {
        match self {
            ArtifactSelector::Package(p) => SelectorView::Package(p@),
            ArtifactSelector::Workspace(w) => SelectorView::Workspace(w@),
        }
    }
}

/// The package containing a module inside a distribution.
#[derive(Debug, Clone, PartialEq, Eq, Hash)]
pub enum NodeOwner {
    OwnPackage,
    Dependency(PackageName),
}

pub enum OwnerView {
    OwnPackage,
    Dependency(Seq<Seq<SegmentView>>),
}

impl View for NodeOwner {
    type V = OwnerView;

    open spec fn view(&self) -> OwnerView {
        match self {
            NodeOwner::OwnPackage => OwnerView::OwnPackage,
            NodeOwner::Dependency(p) => OwnerView::Dependency(p@),
        }
    }
}

/// The first semantic node selected within a distribution.
#[derive(Debug, Clone, PartialEq, Eq, Hash)]
pub enum NodeRoot {
    Distribution,
    Package,
    Dependency(PackageName),
    EntryPoint(String),
    Module { owner: NodeOwner, module: Path },
    Type { owner: NodeOwner, module: Path, name: Name },
    Value { owner: NodeOwner, module: Path, name: Name },
}

pub enum RootView {
    Distribution,
    Package,
    Dependency(Seq<Seq<SegmentView>>),
    EntryPoint(Seq<char>),
    Module(OwnerView, Seq<Seq<SegmentView>>),
    Type(OwnerView, Seq<Seq<SegmentView>>, Seq<SegmentView>),
    Value(OwnerView, Seq<Seq<SegmentView>>, Seq<SegmentView>),
}

impl View for NodeRoot {
    type V = RootView;

    open spec fn view(&self) -> RootView {
        match self {
            NodeRoot::Distribution => RootView::Distribution,
            NodeRoot::Package => RootView::Package,
            NodeRoot::Dependency(p) => RootView::Dependency(p@),
            NodeRoot::EntryPoint(n) => RootView::EntryPoint(n@),
            NodeRoot::Module { owner, module } => RootView::Module(owner@, module@),
            NodeRoot::Type { owner, module, name } => RootView::Type(owner@, module@, name@),
            NodeRoot::Value { owner, module, name } => RootView::Value(owner@, module@, name@),
        }
    }
}

/// Current resolution or a verified immutable artifact snapshot.
#[derive(Debug, Clone, PartialEq, Eq, Hash)]
pub enum ArtifactRevision {
    Current,
    Pinned(Sha256Digest),
}

pub enum RevisionView {
    Current,
    Pinned(Seq<char>),
}

impl View for ArtifactRevision {
    type V = RevisionView;

    open spec fn view(&self) -> RevisionView {
        match self {
            ArtifactRevision::Current => RevisionView::Current,
            ArtifactRevision::Pinned(d) => RevisionView::Pinned(d@),
        }
    }
}

impl ArtifactSelector {
    pub fn duplicate(&self) -> (r: ArtifactSelector)
        ensures
            r@ == self@,
    {
        match self {
            ArtifactSelector::Package(p) => ArtifactSelector::Package(p.duplicate()),
            ArtifactSelector::Workspace(w) => ArtifactSelector::Workspace(w.clone()),
        }
    }

    pub fn same_as(&self, other: &ArtifactSelector) -> (r: bool)
        ensures
            r == (self@ == other@),
    {
        match (self, other) {
            (ArtifactSelector::Package(a), ArtifactSelector::Package(b)) => a.same_as(b),
            (ArtifactSelector::Workspace(a), ArtifactSelector::Workspace(b)) => str_eq(
                a.as_str(),
                b.as_str(),
            ),
            _ => false,
        }
    }
}

impl NodeOwner {
    pub fn duplicate(&self) -> (r: NodeOwner)
        ensures
            r@ == self@,
    {
        match self {
            NodeOwner::OwnPackage => NodeOwner::OwnPackage,
            NodeOwner::Dependency(p) => NodeOwner::Dependency(p.duplicate()),
        }
    }

    pub fn same_as(&self, other: &NodeOwner) -> (r: bool)
        ensures
            r == (self@ == other@),
    {
        match (self, other) {
            (NodeOwner::OwnPackage, NodeOwner::OwnPackage) => true,
            (NodeOwner::Dependency(a), NodeOwner::Dependency(b)) => a.same_as(b),
            _ => false,
        }
    }
}

impl NodeRoot {
    pub fn duplicate(&self) -> (r: NodeRoot)
        ensures
            r@ == self@,
    {
        match self {
            NodeRoot::Distribution => NodeRoot::Distribution,
            NodeRoot::Package => NodeRoot::Package,
            NodeRoot::Dependency(p) => NodeRoot::Dependency(p.duplicate()),
            NodeRoot::EntryPoint(n) => NodeRoot::EntryPoint(n.clone()),
            NodeRoot::Module { owner, module } => NodeRoot::Module {
                owner: owner.duplicate(),
                module: module.duplicate(),
            },
            NodeRoot::Type { owner, module, name } => NodeRoot::Type {
                owner: owner.duplicate(),
                module: module.duplicate(),
                name: name.duplicate(),
            },
            NodeRoot::Value { owner, module, name } => NodeRoot::Value {
                owner: owner.duplicate(),
                module: module.duplicate(),
                name: name.duplicate(),
            },
        }
    }

    pub fn same_as(&self, other: &NodeRoot) -> (r: bool)
        ensures
            r == (self@ == other@),
    {
        match (self, other) {
            (NodeRoot::Distribution, NodeRoot::Distribution) => true,
            (NodeRoot::Package, NodeRoot::Package) => true,
            (NodeRoot::Dependency(a), NodeRoot::Dependency(b)) => a.same_as(b),
            (NodeRoot::EntryPoint(a), NodeRoot::EntryPoint(b)) => str_eq(a.as_str(), b.as_str()),
            (
                NodeRoot::Module { owner: o1, module: m1 },
                NodeRoot::Module { owner: o2, module: m2 },
            ) => o1.same_as(o2) && m1.same_as(m2),
            (
                NodeRoot::Type { owner: o1, module: m1, name: n1 },
                NodeRoot::Type { owner: o2, module: m2, name: n2 },
            ) => o1.same_as(o2) && m1.same_as(m2) && n1.same_as(n2),
            (
                NodeRoot::Value { owner: o1, module: m1, name: n1 },
                NodeRoot::Value { owner: o2, module: m2, name: n2 },
            ) => o1.same_as(o2) && m1.same_as(m2) && n1.same_as(n2),
            _ => false,
        }
    }
}

impl ArtifactRevision {
    pub fn duplicate(&self) -> (r: ArtifactRevision)
        ensures
            r@ == self@,
    {
        match self {
            ArtifactRevision::Current => ArtifactRevision::Current,
            ArtifactRevision::Pinned(d) => ArtifactRevision::Pinned(d.duplicate()),
        }
    }

    pub fn same_as(&self, other: &ArtifactRevision) -> (r: bool)
        ensures
            r == (self@ == other@),
    {
        match (self, other) {
            (ArtifactRevision::Current, ArtifactRevision::Current) => true,
            (ArtifactRevision::Pinned(a), ArtifactRevision::Pinned(b)) => a.same_as(b),
            _ => false,
        }
    }
}

pub open spec fn kw(k: Keyword) -> Seq<char> {
    keyword_spelling(k)
}

pub open spec fn owner_parts(o: OwnerView) -> Seq<Seq<char>> {
    match o {
        OwnerView::OwnPackage => Seq::<Seq<char>>::empty(),
        OwnerView::Dependency(p) => seq![kw(Keyword::Dependency), path_part(p)],
    }
}

/// The `/`-separated parts a root is written as.
pub open spec fn root_parts(r: RootView) -> Seq<Seq<char>> {
    match r {
        RootView::Distribution => seq![kw(Keyword::Distribution)],
        RootView::Package => seq![kw(Keyword::Package)],
        RootView::Dependency(p) => seq![kw(Keyword::Dependency), path_part(p)],
        RootView::EntryPoint(n) => seq![kw(Keyword::EntryPoint), encoded_component(n)],
        RootView::Module(o, m) => owner_parts(o) + seq![kw(Keyword::Module), path_part(m)],
        RootView::Type(o, m, n) => owner_parts(o) + seq![
            kw(Keyword::Module),
            path_part(m),
            kw(Keyword::Type),
            name_part(n),
        ],
        RootView::Value(o, m, n) => owner_parts(o) + seq![
            kw(Keyword::Module),
            path_part(m),
            kw(Keyword::Value),
            name_part(n),
        ],
    }
}

/// The module root written from part `at` on, under `owner`.
pub open spec fn parse_module_root(ps: Seq<Seq<char>>, at: int, owner: OwnerView) -> Result<
    (RootView, int),
    UriErrorView,
> {
    if at + 4 <= ps.len() && keyword_of(ps[at]) == Some(Keyword::Module) && keyword_of(ps[at + 2])
        == Some(Keyword::Type) {
        match parse_module_path(ps[at + 1]) {
            Err(e) => Err(e),
            Ok(m) => match parse_name_spec(ps[at + 3]) {
                Err(e) => Err(e),
                Ok(n) => Ok((RootView::Type(owner, m, n), at + 4)),
            },
        }
    } else if at + 4 <= ps.len() && keyword_of(ps[at]) == Some(Keyword::Module) && keyword_of(
        ps[at + 2],
    ) == Some(Keyword::Value) {
        match parse_module_path(ps[at + 1]) {
            Err(e) => Err(e),
            Ok(m) => match parse_name_spec(ps[at + 3]) {
                Err(e) => Err(e),
                Ok(n) => Ok((RootView::Value(owner, m, n), at + 4)),
            },
        }
    } else if at + 2 <= ps.len() && keyword_of(ps[at]) == Some(Keyword::Module) {
        match parse_module_path(ps[at + 1]) {
            Err(e) => Err(e),
            Ok(m) => Ok((RootView::Module(owner, m), at + 2)),
        }
    } else {
        Err(UriErrorView::Invalid("invalid node root"@))
    }
}

/// The root written at the start of `ps`, and how many parts it takes.
pub open spec fn parse_root(ps: Seq<Seq<char>>) -> Result<(RootView, int), UriErrorView> {
    if ps.len() >= 1 && keyword_of(ps[0]) == Some(Keyword::Distribution) {
        Ok((RootView::Distribution, 1))
    } else if ps.len() >= 1 && keyword_of(ps[0]) == Some(Keyword::Package) {
        Ok((RootView::Package, 1))
    } else if ps.len() >= 2 && keyword_of(ps[0]) == Some(Keyword::EntryPoint) && ps[1].len() > 0 {
        match decoded_component(ps[1]) {
            Err(e) => Err(e),
            Ok(d) => Ok((RootView::EntryPoint(d), 2)),
        }
    } else if ps.len() >= 2 && keyword_of(ps[0]) == Some(Keyword::Dependency) {
        match decoded_component(ps[1]) {
            Err(e) => Err(e),
            Ok(d) => match parse_package_spec(d) {
                Err(e) => Err(e),
                Ok(p) => if ps.len() == 2 {
                    Ok((RootView::Dependency(p), 2))
                } else {
                    parse_module_root(ps, 2, OwnerView::Dependency(p))
                },
            },
        }
    } else {
        parse_module_root(ps, 0, OwnerView::OwnPackage)
    }
}

#[verifier::spinoff_prover]
#[verifier::rlimit(60)]
fn push_root_parts(out: &mut Vec<Vec<char>>, r: &NodeRoot)
    ensures
        views(final(out)@) == views(old(out)@) + root_parts(r@),
{
    let ghost start = views(out@);
    match r {
        NodeRoot::Distribution => {
            push_part(out, keyword_chars(Keyword::Distribution));
        },
        NodeRoot::Package => {
            push_part(out, keyword_chars(Keyword::Package));
        },
        NodeRoot::Dependency(p) => {
            push_part(out, keyword_chars(Keyword::Dependency));
            push_part(out, package_part_chars(p));
        },
        NodeRoot::EntryPoint(n) => {
            push_part(out, keyword_chars(Keyword::EntryPoint));
            push_part(out, encode_component(n.as_str()));
        },
        NodeRoot::Module { owner, module } => {
            push_owner(out, owner);
            push_part(out, keyword_chars(Keyword::Module));
            push_part(out, path_part_chars(module));
        },
        NodeRoot::Type { owner, module, name } => {
            push_owner(out, owner);
            push_part(out, keyword_chars(Keyword::Module));
            push_part(out, path_part_chars(module));
            push_part(out, keyword_chars(Keyword::Type));
            push_part(out, name_part_chars(name));
        },
        NodeRoot::Value { owner, module, name } => {
            push_owner(out, owner);
            push_part(out, keyword_chars(Keyword::Module));
            push_part(out, path_part_chars(module));
            push_part(out, keyword_chars(Keyword::Value));
            push_part(out, name_part_chars(name));
        },
    }
    assert(views(out@) =~= start + root_parts(r@));
}

fn push_owner(out: &mut Vec<Vec<char>>, owner: &NodeOwner)
    ensures
        views(final(out)@) == views(old(out)@) + owner_parts(owner@),
{
    let ghost start = views(out@);
    match owner {
        NodeOwner::OwnPackage => {},
        NodeOwner::Dependency(p) => {
            push_part(out, keyword_chars(Keyword::Dependency));
            push_part(out, package_part_chars(p));
        },
    }
    assert(views(out@) =~= start + owner_parts(owner@));
}

proof fn lemma_parse_root_consumed(ps: Seq<Seq<char>>)
    ensures
        parse_root(ps) matches Ok((r, n)) ==> 0 <= n <= ps.len(),
{
}

fn parse_module_root_at(
    parts: &Vec<Vec<char>>,
    toks: &Vec<Option<Keyword>>,
    at: usize,
    owner: NodeOwner,
) -> (r: Result<(NodeRoot, usize), NodeUriError>)
    requires
        at <= parts@.len(),
        toks@.len() == parts@.len(),
        forall|k: int| 0 <= k < parts@.len() ==> toks@[k] == keyword_of(#[trigger] parts@[k]@),
    ensures
        match r {
            Ok((root, n)) => parse_module_root(views(parts@), at as int, owner@) == Ok::<
                (RootView, int),
                UriErrorView,
            >((root@, n as int)),
            Err(e) => parse_module_root(views(parts@), at as int, owner@) == Err::<
                (RootView, int),
                UriErrorView,
            >(e@),
        },
{
    let ghost ps = views(parts@);
    assert forall|k: int| 0 <= k < parts@.len() implies toks@[k] == keyword_of(ps[k]) by {
        assert(ps[k] == parts@[k]@);
    }
    let n = parts.len();
    if n - at >= 4 && is_keyword(toks[at], Keyword::Module) && (is_keyword(
        toks[at + 2],
        Keyword::Type,
    ) || is_keyword(toks[at + 2], Keyword::Value)) {
        let is_type = is_keyword(toks[at + 2], Keyword::Type);
        assert(ps[at + 1] == parts@[at + 1]@);
        assert(ps[at + 3] == parts@[at + 3]@);
        let module = match parse_module_part(&parts[at + 1]) {
            Ok(m) => m,
            Err(e) => {
                return Err(e);
            },
        };
        let name = match parse_name_part(&parts[at + 3]) {
            Ok(x) => x,
            Err(e) => {
                return Err(e);
            },
        };
        if is_type {
            return Ok((NodeRoot::Type { owner, module, name }, at + 4));
        } else {
            return Ok((NodeRoot::Value { owner, module, name }, at + 4));
        }
    }
    if n - at >= 2 && is_keyword(toks[at], Keyword::Module) {
        assert(ps[at + 1] == parts@[at + 1]@);
        return match parse_module_part(&parts[at + 1]) {
            Ok(module) => Ok((NodeRoot::Module { owner, module }, at + 2)),
            Err(e) => Err(e),
        };
    }
    Err(invalid("invalid node root"))
}

fn parse_root_at(parts: &Vec<Vec<char>>, toks: &Vec<Option<Keyword>>) -> (r: Result<
    (NodeRoot, usize),
    NodeUriError,
>)
    requires
        toks@.len() == parts@.len(),
        forall|k: int| 0 <= k < parts@.len() ==> toks@[k] == keyword_of(#[trigger] parts@[k]@),
    ensures
        match r {
            Ok((root, n)) => parse_root(views(parts@)) == Ok::<(RootView, int), UriErrorView>(
                (root@, n as int),
            ),
            Err(e) => parse_root(views(parts@)) == Err::<(RootView, int), UriErrorView>(e@),
        },
{
    let ghost ps = views(parts@);
    assert forall|k: int| 0 <= k < parts@.len() implies toks@[k] == keyword_of(ps[k]) by {
        assert(ps[k] == parts@[k]@);
    }
    let n = parts.len();
    if n >= 1 && is_keyword(toks[0], Keyword::Distribution) {
        return Ok((NodeRoot::Distribution, 1));
    }
    if n >= 1 && is_keyword(toks[0], Keyword::Package) {
        return Ok((NodeRoot::Package, 1));
    }
    if n >= 2 && is_keyword(toks[0], Keyword::EntryPoint) && parts[1].len() > 0 {
        assert(ps[1] == parts@[1]@);
        return match decode_component(parts[1].as_slice()) {
            Ok(d) => Ok((NodeRoot::EntryPoint(string_of(d.as_slice())), 2)),
            Err(e) => Err(e),
        };
    }
    if n >= 2 && is_keyword(toks[0], Keyword::Dependency) {
        assert(ps[1] == parts@[1]@);
        let d = match decode_component(parts[1].as_slice()) {
            Ok(d) => d,
            Err(e) => {
                return Err(e);
            },
        };
        let p = match parse_package_text(d.as_slice()) {
            Ok(p) => p,
            Err(e) => {
                return Err(e);
            },
        };
        if n == 2 {
            return Ok((NodeRoot::Dependency(p), 2));
        }
        return parse_module_root_at(parts, toks, 2, NodeOwner::Dependency(p));
    }
    parse_module_root_at(parts, toks, 0, NodeOwner::OwnPackage)
}


// ---------------------------------------------------------------------------
// Step sequences
// ---------------------------------------------------------------------------

pub open spec fn step_views(v: Seq<NodeStep>) -> Seq<StepView> {
    v.map_values(|s: NodeStep| s@)
}

/// The parts a sequence of steps is written as, one step after the other.
pub open spec fn steps_parts(ss: Seq<StepView>) -> Seq<Seq<char>>
    decreases ss.len(),
{
    if ss.len() == 0 {
        Seq::<Seq<char>>::empty()
    } else {
        step_parts(ss[0]) + steps_parts(ss.drop_first())
    }
}

pub proof fn lemma_steps_parts_concat(a: Seq<StepView>, b: Seq<StepView>)
    ensures
        steps_parts(a + b) == steps_parts(a) + steps_parts(b),
    decreases a.len(),
{
    if a.len() == 0 {
        assert(a + b =~= b);
        assert(steps_parts(a) + steps_parts(b) =~= steps_parts(b));
    } else {
        lemma_steps_parts_concat(a.drop_first(), b);
        assert((a + b).drop_first() =~= a.drop_first() + b);
        assert((a + b)[0] == a[0]);
        assert(steps_parts(a + b) =~= step_parts(a[0]) + (steps_parts(a.drop_first())
            + steps_parts(b)));
    }
}

/// The steps written from part `i` of `ps` on.
pub open spec fn parse_steps_from(ps: Seq<Seq<char>>, i: int) -> Result<Seq<StepView>, UriErrorView>
    decreases ps.len() - i,
{
    if i >= ps.len() {
        Ok(Seq::<StepView>::empty())
    } else {
        match parse_step(ps, i) {
            Err(e) => Err(e),
            Ok((s, n)) => if n >= 1 {
                match parse_steps_from(ps, i + n) {
                    Ok(rest) => Ok(seq![s] + rest),
                    Err(e) => Err(e),
                }
            } else {
                Err(UriErrorView::Invalid("unknown semantic child role"@))
            },
        }
    }
}

pub open spec fn has_positional(ss: Seq<StepView>) -> bool {
    exists|k: int| 0 <= k < ss.len() && positional(#[trigger] ss[k])
}

pub open spec fn prefixed_steps(p: Seq<StepView>, r: Result<Seq<StepView>, UriErrorView>) -> Result<
    Seq<StepView>,
    UriErrorView,
> {
    match r {
        Ok(t) => Ok(p + t),
        Err(e) => Err(e),
    }
}

fn keywords_in(parts: &Vec<Vec<char>>) -> (r: Vec<Option<Keyword>>)
    ensures
        r@.len() == parts@.len(),
        forall|k: int| 0 <= k < parts@.len() ==> r@[k] == keyword_of(#[trigger] parts@[k]@),
{
    let mut out: Vec<Option<Keyword>> = Vec::new();
    let mut i: usize = 0;
    while i < parts.len()
        invariant
            i <= parts.len(),
            out@.len() == i,
            forall|k: int| 0 <= k < i ==> out@[k] == keyword_of(#[trigger] parts@[k]@),
        decreases parts.len() - i,
    {
        out.push(keyword_in(parts[i].as_slice()));
        i = i + 1;
    }
    out
}

fn parse_steps_at(parts: &Vec<Vec<char>>, toks: &Vec<Option<Keyword>>, start: usize) -> (r: Result<
    Vec<NodeStep>,
    NodeUriError,
>)
    requires
        start <= parts@.len(),
        toks@.len() == parts@.len(),
        forall|k: int| 0 <= k < parts@.len() ==> toks@[k] == keyword_of(#[trigger] parts@[k]@),
    ensures
        match r {
            Ok(ss) => parse_steps_from(views(parts@), start as int) == Ok::<
                Seq<StepView>,
                UriErrorView,
            >(step_views(ss@)),
            Err(e) => parse_steps_from(views(parts@), start as int) == Err::<
                Seq<StepView>,
                UriErrorView,
            >(e@),
        },
{
    let ghost ps = views(parts@);
    let mut steps: Vec<NodeStep> = Vec::new();
    let mut i = start;
    assert(step_views(steps@) =~= Seq::<StepView>::empty());
    proof {
        match parse_steps_from(ps, start as int) {
            Ok(t) => {
                assert(Seq::<StepView>::empty() + t =~= t);
            },
            Err(e) => {},
        }
    }
    while i < parts.len()
        invariant
            start <= i <= parts@.len(),
            ps == views(parts@),
            toks@.len() == parts@.len(),
            forall|k: int| 0 <= k < parts@.len() ==> toks@[k] == keyword_of(#[trigger] parts@[k]@),
            parse_steps_from(ps, start as int) == prefixed_steps(
                step_views(steps@),
                parse_steps_from(ps, i as int),
            ),
        decreases parts.len() - i,
    {
        match parse_step_at(parts, toks, i) {
            Err(e) => {
                return Err(e);
            },
            Ok((s, n)) => {
                let ghost before = steps@;
                let ghost sv = s@;
                steps.push(s);
                proof {
                    assert(step_views(steps@) =~= step_views(before).push(sv));
                    match parse_steps_from(ps, i as int + n as int) {
                        Ok(t) => {
                            assert(step_views(before) + (seq![sv] + t) =~= step_views(steps@)
                                + t);
                        },
                        Err(e) => {},
                    }
                }
                i = i + n;
            },
        }
    }
    assert(step_views(steps@) + Seq::<StepView>::empty() =~= step_views(steps@));
    Ok(steps)
}

fn any_positional(steps: &Vec<NodeStep>) -> (r: bool)
    ensures
        r == has_positional(step_views(steps@)),
{
    let ghost sv = step_views(steps@);
    let mut i: usize = 0;
    while i < steps.len()
        invariant
            i <= steps.len(),
            sv == step_views(steps@),
            forall|k: int| 0 <= k < i ==> !positional(#[trigger] sv[k]),
        decreases steps.len() - i,
    {
        if steps[i].is_positional() {
            assert(positional(sv[i as int]));
            return true;
        }
        i = i + 1;
    }
    false
}

fn push_steps_parts(out: &mut Vec<Vec<char>>, steps: &Vec<NodeStep>)
    ensures
        views(final(out)@) == views(old(out)@) + steps_parts(step_views(steps@)),
{
    let ghost start = views(out@);
    let ghost sv = step_views(steps@);
    let mut i: usize = 0;
    assert(sv.take(0) =~= Seq::<StepView>::empty());
    assert(start + steps_parts(Seq::<StepView>::empty()) =~= start);
    while i < steps.len()
        invariant
            i <= steps.len(),
            sv == step_views(steps@),
            views(out@) == start + steps_parts(sv.take(i as int)),
        decreases steps.len() - i,
    {
        push_step_parts(out, &steps[i]);
        proof {
            assert(sv.take(i as int + 1) =~= sv.take(i as int) + seq![sv[i as int]]);
            lemma_steps_parts_concat(sv.take(i as int), seq![sv[i as int]]);
            assert(seq![sv[i as int]].drop_first() =~= Seq::<StepView>::empty());
            assert(seq![sv[i as int]][0] == sv[i as int]);
            assert(steps_parts(Seq::<StepView>::empty()) =~= Seq::<Seq<char>>::empty());
            assert(steps_parts(seq![sv[i as int]]) =~= step_parts(sv[i as int]));
            assert(views(out@) =~= start + steps_parts(sv.take(i as int + 1)));
        }
        i = i + 1;
    }
    assert(sv.take(i as int) =~= sv);
}

// ---------------------------------------------------------------------------
// The whole address
// ---------------------------------------------------------------------------

pub open spec fn has_prefix(s: Seq<char>, p: Seq<char>) -> bool {
    s.len() >= p.len() && s.take(p.len() as int) == p
}

pub open spec fn authority() -> Seq<char> {
    seq!['m', 'o', 'r', 'p', 'h', 'i', 'r', ':', '/', '/', 'i', 'r', '/']
}

pub open spec fn package_prefix() -> Seq<char> {
    seq!['p', 'k', 'g', '/']
}

pub open spec fn workspace_prefix() -> Seq<char> {
    seq!['w', 'o', 'r', 'k', 's', 'p', 'a', 'c', 'e', '/']
}

pub open spec fn format_key() -> Seq<char> {
    seq!['f', 'o', 'r', 'm', 'a', 't']
}

pub open spec fn rev_key() -> Seq<char> {
    seq!['r', 'e', 'v']
}

pub open spec fn guard_key() -> Seq<char> {
    seq!['g', 'u', 'a', 'r', 'd']
}

/// How the artifact selector is spelled before the query.
pub open spec fn selector_spelling(a: SelectorView) -> Seq<char> {
    match a {
        SelectorView::Package(p) => package_prefix() + path_canonical(p),
        SelectorView::Workspace(w) => workspace_prefix() + w,
    }
}

/// What the part before the query selects.
pub open spec fn parse_selector(s: Seq<char>) -> Result<SelectorView, UriErrorView> {
    if has_prefix(s, package_prefix()) {
        let raw = s.skip(4);
        if raw.len() == 0 {
            Err(UriErrorView::Invalid("empty package selector"@))
        } else {
            match parse_package_spec(raw) {
                Ok(p) => Ok(SelectorView::Package(p)),
                Err(e) => Err(e),
            }
        }
    } else if has_prefix(s, workspace_prefix()) {
        let alias = s.skip(10);
        if !lowercase_words(alias) {
            Err(UriErrorView::Invalid("invalid workspace alias"@))
        } else {
            Ok(SelectorView::Workspace(alias))
        }
    } else {
        Err(UriErrorView::Invalid("unknown artifact selector"@))
    }
}

/// The query's parameters: the format, then the revision and the guard when there are.
pub open spec fn query_params(f: ReleaseTriplet, rev: RevisionView, g: Option<Seq<char>>) -> Seq<
    Seq<char>,
> {
    seq![format_key() + seq!['='] + release_spelling(f)] + match rev {
        RevisionView::Current => Seq::<Seq<char>>::empty(),
        RevisionView::Pinned(d) => seq![rev_key() + seq!['='] + digest_spelling(d)],
    } + match g {
        None => Seq::<Seq<char>>::empty(),
        Some(x) => seq![guard_key() + seq!['='] + digest_spelling(x)],
    }
}

pub type QueryView = (Option<ReleaseTriplet>, RevisionView, Option<Seq<char>>);

/// What the query parameters from `i` on set, starting from `q`.
pub open spec fn parse_query(ps: Seq<Seq<char>>, i: int, q: QueryView) -> Result<
    QueryView,
    UriErrorView,
>
    decreases ps.len() - i,
{
    if i >= ps.len() || i < 0 {
        Ok(q)
    } else {
        let p = ps[i];
        match first_index(p, '=') {
            None => Err(UriErrorView::Invalid("malformed query parameter"@)),
            Some(e) => {
                let key = p.take(e);
                let value = p.skip(e + 1);
                if key == format_key() && q.0 is None {
                    match parse_format(value) {
                        Ok(f) => parse_query(ps, i + 1, (Some(f), q.1, q.2)),
                        Err(er) => Err(er),
                    }
                } else if key == rev_key() && q.1 is Current {
                    match parse_digest(value) {
                        Ok(d) => parse_query(ps, i + 1, (q.0, RevisionView::Pinned(d), q.2)),
                        Err(er) => Err(er),
                    }
                } else if key == guard_key() && q.2 is None {
                    match parse_digest(value) {
                        Ok(d) => parse_query(ps, i + 1, (q.0, q.1, Some(d))),
                        Err(er) => Err(er),
                    }
                } else {
                    Err(UriErrorView::Invalid("duplicate or unknown query parameter"@))
                }
            },
        }
    }
}

/// An address's content as plain values.
pub struct UriView {
    pub artifact: SelectorView,
    pub format: ReleaseTriplet,
    pub root: RootView,
    pub steps: Seq<StepView>,
    pub revision: RevisionView,
    pub guard: Option<Seq<char>>,
}

/// The one spelling of an address.
pub open spec fn uri_spelling(a: UriView) -> Seq<char> {
    authority() + selector_spelling(a.artifact) + seq!['?'] + join(
        query_params(a.format, a.revision, a.guard),
        seq!['&'],
    ) + seq!['#', '/'] + join(root_parts(a.root) + steps_parts(a.steps), seq!['/'])
}

/// What the fragment reads as, under the artifact and query already read from `u`.
pub open spec fn parse_fragment(
    fragment: Seq<char>,
    artifact: SelectorView,
    format: ReleaseTriplet,
    revision: RevisionView,
    guard: Option<Seq<char>>,
    u: Seq<char>,
) -> Result<UriView, UriErrorView> {
    if fragment.len() == 0 || fragment[0] != '/' {
        Err(UriErrorView::Invalid("node fragment must start with /"@))
    } else {
        let parts = split(fragment.skip(1), '/');
        match parse_root(parts) {
            Err(e) => Err(e),
            Ok((root, consumed)) => match parse_steps_from(parts, consumed) {
                Err(e) => Err(e),
                Ok(steps) => if revision is Current && guard is None && has_positional(steps) {
                    Err(UriErrorView::MissingGuard)
                } else {
                    let a = UriView { artifact, format, root, steps, revision, guard };
                    if uri_spelling(a) != u {
                        Err(UriErrorView::Invalid("noncanonical URI spelling"@))
                    } else {
                        Ok(a)
                    }
                },
            },
        }
    }
}

/// What [`NodeUri::parse`] answers for `u`.
pub open spec fn parse_uri(u: Seq<char>) -> Result<UriView, UriErrorView> {
    if !has_prefix(u, authority()) {
        Err(UriErrorView::Invalid("wrong URI authority"@))
    } else {
        let body = u.skip(13);
        match first_index(body, '#') {
            None => Err(UriErrorView::Invalid("missing node fragment"@)),
            Some(h) => {
                let before = body.take(h);
                let fragment = body.skip(h + 1);
                if fragment.contains('#') {
                    Err(UriErrorView::Invalid("duplicate fragment"@))
                } else {
                    match first_index(before, '?') {
                        None => Err(UriErrorView::Invalid("missing format query"@)),
                        Some(q) => match parse_selector(before.take(q)) {
                            Err(e) => Err(e),
                            Ok(artifact) => match parse_query(
                                split(before.skip(q + 1), '&'),
                                0,
                                (None, RevisionView::Current, None),
                            ) {
                                Err(e) => Err(e),
                                Ok(found) => match found.0 {
                                    None => Err(UriErrorView::Invalid("missing format"@)),
                                    Some(format) => parse_fragment(
                                        fragment,
                                        artifact,
                                        format,
                                        found.1,
                                        found.2,
                                        u,
                                    ),
                                },
                            },
                        },
                    }
                }
            },
        }
    }
}

pub open spec fn guard_view(g: Option<Sha256Digest>) -> Option<Seq<char>> {
    match g {
        Some(d) => Some(d@),
        None => None,
    }
}


fn parse_selector_in(s: &[char]) -> (r: Result<ArtifactSelector, NodeUriError>)
    ensures
        match r {
            Ok(a) => parse_selector(s@) == Ok::<SelectorView, UriErrorView>(a@),
            Err(e) => parse_selector(s@) == Err::<SelectorView, UriErrorView>(e@),
        },
{
    let pkg = vec!['p', 'k', 'g', '/'];
    assert(pkg@ =~= package_prefix());
    let ws = vec!['w', 'o', 'r', 'k', 's', 'p', 'a', 'c', 'e', '/'];
    assert(ws@ =~= workspace_prefix());
    if starts_with(s, pkg.as_slice()) {
        let raw = subrange(s, 4, s.len());
        assert(raw@ =~= s@.skip(4));
        if raw.len() == 0 {
            return Err(invalid("empty package selector"));
        }
        return match parse_package_text(raw.as_slice()) {
            Ok(p) => Ok(ArtifactSelector::Package(p)),
            Err(e) => Err(e),
        };
    }
    if starts_with(s, ws.as_slice()) {
        let alias = subrange(s, 10, s.len());
        assert(alias@ =~= s@.skip(10));
        if !lowercase_words_in(alias.as_slice()) {
            return Err(invalid("invalid workspace alias"));
        }
        return Ok(ArtifactSelector::Workspace(string_of(alias.as_slice())));
    }
    Err(invalid("unknown artifact selector"))
}

fn revision_is_current(r: &ArtifactRevision) -> (b: bool)
    ensures
        b == (r@ is Current),
{
    match r {
        ArtifactRevision::Current => true,
        ArtifactRevision::Pinned(_) => false,
    }
}

fn parse_query_in(query: &[char]) -> (r: Result<
    (Option<ReleaseTriplet>, ArtifactRevision, Option<Sha256Digest>),
    NodeUriError,
>)
    ensures
        match r {
            Ok((f, rev, g)) => parse_query(
                split(query@, '&'),
                0,
                (None, RevisionView::Current, None),
            ) == Ok::<QueryView, UriErrorView>((f, rev@, guard_view(g))),
            Err(e) => parse_query(split(query@, '&'), 0, (None, RevisionView::Current, None))
                == Err::<QueryView, UriErrorView>(e@),
        },
{
    let params = split_chars(query, '&');
    let ghost ps = split(query@, '&');
    let fkey = vec!['f', 'o', 'r', 'm', 'a', 't'];
    let rkey = vec!['r', 'e', 'v'];
    let gkey = vec!['g', 'u', 'a', 'r', 'd'];
    assert(fkey@ =~= format_key());
    assert(rkey@ =~= rev_key());
    assert(gkey@ =~= guard_key());
    let mut format: Option<ReleaseTriplet> = None;
    let mut revision = ArtifactRevision::Current;
    let mut guard: Option<Sha256Digest> = None;
    let mut i: usize = 0;
    while i < params.len()
        invariant
            i <= params@.len(),
            params@.len() == ps.len(),
            ps == split(query@, '&'),
            forall|k: int| 0 <= k < params@.len() ==> (#[trigger] params@[k])@ == ps[k],
            fkey@ == format_key(),
            rkey@ == rev_key(),
            gkey@ == guard_key(),
            parse_query(ps, 0, (None, RevisionView::Current, None)) == parse_query(
                ps,
                i as int,
                (format, revision@, guard_view(guard)),
            ),
        decreases params.len() - i,
    {
        let p = &params[i];
        assert(p@ == ps[i as int]);
        let e = match find_char(p.as_slice(), '=') {
            None => {
                return Err(invalid("malformed query parameter"));
            },
            Some(e) => e,
        };
        proof {
            crate::text::lemma_first_index(p@, '=');
        }
        assert(e < p.len());
        let key = subrange(p.as_slice(), 0, e);
        let value = subrange(p.as_slice(), e + 1, p.len());
        assert(key@ =~= p@.take(e as int));
        assert(value@ =~= p@.skip(e as int + 1));
        if seq_eq(key.as_slice(), fkey.as_slice()) && format.is_none() {
            match parse_format_in(value.as_slice()) {
                Ok(f) => {
                    format = Some(f);
                },
                Err(er) => {
                    return Err(er);
                },
            }
        } else if seq_eq(key.as_slice(), rkey.as_slice()) && revision_is_current(&revision) {
            let text = string_of(value.as_slice());
            match Sha256Digest::parse(text.as_str()) {
                Ok(d) => {
                    revision = ArtifactRevision::Pinned(d);
                },
                Err(er) => {
                    return Err(er);
                },
            }
        } else if seq_eq(key.as_slice(), gkey.as_slice()) && guard.is_none() {
            let text = string_of(value.as_slice());
            match Sha256Digest::parse(text.as_str()) {
                Ok(d) => {
                    guard = Some(d);
                },
                Err(er) => {
                    return Err(er);
                },
            }
        } else {
            return Err(invalid("duplicate or unknown query parameter"));
        }
        i = i + 1;
    }
    Ok((format, revision, guard))
}

/// A portable address with a canonical Morphir URI spelling.
#[derive(Debug, Clone, PartialEq, Eq)]
pub struct NodeUri {
    artifact: ArtifactSelector,
    format: IrFormatVersion,
    root: NodeRoot,
    steps: Vec<NodeStep>,
    revision: ArtifactRevision,
    guard: Option<Sha256Digest>,
}

impl View for NodeUri {
    type V = UriView;

    closed spec fn view(&self) -> UriView {
        UriView {
            artifact: self.artifact@,
            format: self.format,
            root: self.root@,
            steps: step_views(self.steps@),
            revision: self.revision@,
            guard: guard_view(self.guard),
        }
    }
}

fn parse_fragment_in(
    fragment: &Vec<char>,
    artifact: ArtifactSelector,
    format: ReleaseTriplet,
    revision: ArtifactRevision,
    guard: Option<Sha256Digest>,
    whole: &Vec<char>,
) -> (r: Result<NodeUri, NodeUriError>)
    ensures
        match r {
            Ok(a) => parse_fragment(
                fragment@,
                artifact@,
                format,
                revision@,
                guard_view(guard),
                whole@,
            ) == Ok::<UriView, UriErrorView>(a@),
            Err(e) => parse_fragment(
                fragment@,
                artifact@,
                format,
                revision@,
                guard_view(guard),
                whole@,
            ) == Err::<UriView, UriErrorView>(e@),
        },
{
    if fragment.len() == 0 || fragment[0] != '/' {
        return Err(invalid("node fragment must start with /"));
    }
    let rest = subrange(fragment.as_slice(), 1, fragment.len());
    assert(rest@ =~= fragment@.skip(1));
    let parts = split_chars(rest.as_slice(), '/');
    assert(views(parts@) =~= split(fragment@.skip(1), '/'));
    let toks = keywords_in(&parts);
    let (root, consumed) = match parse_root_at(&parts, &toks) {
        Ok(x) => x,
        Err(e) => {
            return Err(e);
        },
    };
    proof {
        lemma_parse_root_consumed(views(parts@));
    }
    let steps = match parse_steps_at(&parts, &toks, consumed) {
        Ok(s) => s,
        Err(e) => {
            return Err(e);
        },
    };
    if revision_is_current(&revision) && guard.is_none() && any_positional(&steps) {
        return Err(NodeUriError::MissingGuard);
    }
    let address = NodeUri { artifact, format, root, steps, revision, guard };
    let spelled = address.spelling_chars();
    if !seq_eq(spelled.as_slice(), whole.as_slice()) {
        return Err(invalid("noncanonical URI spelling"));
    }
    Ok(address)
}

impl NodeUri {
    /// Construct an address only if its canonical spelling parses back to the same typed
    /// value.
    pub fn new(
        artifact: ArtifactSelector,
        format: IrFormatVersion,
        root: NodeRoot,
        steps: Vec<NodeStep>,
        revision: ArtifactRevision,
        guard: Option<Sha256Digest>,
    ) -> (r: Result<NodeUri, NodeUriError>)
        ensures
            ({
                let c = UriView {
                    artifact: artifact@,
                    format,
                    root: root@,
                    steps: step_views(steps@),
                    revision: revision@,
                    guard: guard_view(guard),
                };
                match parse_uri(uri_spelling(c)) {
                    Err(e) => r matches Err(x) && x@ == e,
                    Ok(x) => if x == c {
                        r matches Ok(u) && u@ == c
                    } else {
                        r matches Err(y) && y@ == UriErrorView::Invalid("address is not canonical"@)
                    },
                }
            }),
    {
        let candidate = NodeUri { artifact, format, root, steps, revision, guard };
        let spelled = candidate.to_string();
        let checked = match NodeUri::parse(spelled.as_str()) {
            Ok(x) => x,
            Err(e) => {
                return Err(e);
            },
        };
        if !checked.same_as(&candidate) {
            return Err(invalid("address is not canonical"));
        }
        Ok(candidate)
    }

    pub fn artifact(&self) -> (r: &ArtifactSelector)
        ensures
            r@ == self@.artifact,
    {
        &self.artifact
    }

    pub fn format(&self) -> (r: IrFormatVersion)
        ensures
            r == self@.format,
    {
        self.format
    }

    pub fn root(&self) -> (r: &NodeRoot)
        ensures
            r@ == self@.root,
    {
        &self.root
    }

    pub fn steps(&self) -> (r: &[NodeStep])
        ensures
            step_views(r@) == self@.steps,
    {
        self.steps.as_slice()
    }

    pub fn revision(&self) -> (r: &ArtifactRevision)
        ensures
            r@ == self@.revision,
    {
        &self.revision
    }

    pub fn guard(&self) -> (r: Option<&Sha256Digest>)
        ensures
            match r {
                Some(d) => self@.guard == Some(d@),
                None => self@.guard is None,
            },
    {
        match &self.guard {
            Some(d) => Some(d),
            None => None,
        }
    }

    /// An address with the same view.
    pub fn duplicate(&self) -> (r: NodeUri)
        ensures
            r@ == self@,
    {
        let mut steps: Vec<NodeStep> = Vec::new();
        let mut i: usize = 0;
        while i < self.steps.len()
            invariant
                i <= self.steps.len(),
                step_views(steps@) == step_views(self.steps@).take(i as int),
            decreases self.steps.len() - i,
        {
            let s = self.steps[i].duplicate();
            let ghost before = steps@;
            let ghost sv = s@;
            assert(sv == self.steps@[i as int]@);
            steps.push(s);
            assert(step_views(steps@) =~= step_views(before).push(sv));
            assert(step_views(self.steps@).take(i as int + 1) =~= step_views(self.steps@).take(
                i as int,
            ).push(sv));
            assert(step_views(steps@) =~= step_views(self.steps@).take(i as int + 1));
            i = i + 1;
        }
        assert(step_views(self.steps@).take(i as int) =~= step_views(self.steps@));
        let guard = match &self.guard {
            Some(g) => Some(g.duplicate()),
            None => None,
        };
        NodeUri {
            artifact: self.artifact.duplicate(),
            format: self.format,
            root: self.root.duplicate(),
            steps,
            revision: self.revision.duplicate(),
            guard,
        }
    }

    /// Whether two addresses are the same address.
    pub fn same_as(&self, other: &NodeUri) -> (r: bool)
        ensures
            r == (self@ == other@),
    {
        if !self.artifact.same_as(&other.artifact) || self.format != other.format
            || !self.root.same_as(&other.root) || !self.revision.same_as(&other.revision) {
            return false;
        }
        let same_guard = match (&self.guard, &other.guard) {
            (Some(a), Some(b)) => a.same_as(b),
            (None, None) => true,
            _ => false,
        };
        if !same_guard {
            return false;
        }
        if self.steps.len() != other.steps.len() {
            assert(self@.steps.len() != other@.steps.len());
            return false;
        }
        let mut i: usize = 0;
        while i < self.steps.len()
            invariant
                i <= self.steps.len(),
                self.steps.len() == other.steps.len(),
                forall|k: int| 0 <= k < i ==> self@.steps[k] == other@.steps[k],
            decreases self.steps.len() - i,
        {
            if !self.steps[i].same_as(&other.steps[i]) {
                assert(self@.steps[i as int] != other@.steps[i as int]);
                return false;
            }
            i = i + 1;
        }
        assert(self@.steps =~= other@.steps);
        true
    }

    /// The address's characters.
    pub fn spelling_chars(&self) -> (r: Vec<char>)
        ensures
            r@ == uri_spelling(self@),
    {
        let mut out = vec!['m', 'o', 'r', 'p', 'h', 'i', 'r', ':', '/', '/', 'i', 'r', '/'];
        assert(out@ =~= authority());
        match &self.artifact {
            ArtifactSelector::Package(p) => {
                let pre = vec!['p', 'k', 'g', '/'];
                push_chars(&mut out, pre.as_slice());
                let c = p.canonical_chars();
                push_chars(&mut out, c.as_slice());
                assert(pre@ =~= package_prefix());
            },
            ArtifactSelector::Workspace(w) => {
                let pre = vec!['w', 'o', 'r', 'k', 's', 'p', 'a', 'c', 'e', '/'];
                push_chars(&mut out, pre.as_slice());
                push_str_chars(&mut out, w.as_str());
                assert(pre@ =~= workspace_prefix());
            },
        }
        let ghost head = out@;
        assert(head =~= authority() + selector_spelling(self@.artifact));
        out.push('?');
        let mut params: Vec<Vec<char>> = Vec::new();
        let mut fparam = vec!['f', 'o', 'r', 'm', 'a', 't', '='];
        let fc = self.format.spelling_chars();
        push_chars(&mut fparam, fc.as_slice());
        assert(fparam@ =~= format_key() + seq!['='] + release_spelling(self.format));
        push_part(&mut params, fparam);
        match &self.revision {
            ArtifactRevision::Current => {},
            ArtifactRevision::Pinned(d) => {
                let mut rparam = vec!['r', 'e', 'v', '='];
                let dc = d.spelling_chars();
                push_chars(&mut rparam, dc.as_slice());
                assert(rparam@ =~= rev_key() + seq!['='] + digest_spelling(d@));
                push_part(&mut params, rparam);
            },
        }
        match &self.guard {
            None => {},
            Some(g) => {
                let mut gparam = vec!['g', 'u', 'a', 'r', 'd', '='];
                let gc = g.spelling_chars();
                push_chars(&mut gparam, gc.as_slice());
                assert(gparam@ =~= guard_key() + seq!['='] + digest_spelling(g@));
                push_part(&mut params, gparam);
            },
        }
        assert(views(params@) =~= query_params(self@.format, self@.revision, self@.guard));
        let amp = vec!['&'];
        assert(amp@ =~= seq!['&']);
        let q = join_chars(&params, amp.as_slice());
        push_chars(&mut out, q.as_slice());
        out.push('#');
        out.push('/');
        let mut parts: Vec<Vec<char>> = Vec::new();
        push_root_parts(&mut parts, &self.root);
        push_steps_parts(&mut parts, &self.steps);
        assert(views(parts@) =~= root_parts(self@.root) + steps_parts(self@.steps));
        let slash = vec!['/'];
        assert(slash@ =~= seq!['/']);
        let body = join_chars(&parts, slash.as_slice());
        push_chars(&mut out, body.as_slice());
        assert(out@ =~= uri_spelling(self@));
        out
    }

    /// The address's one canonical spelling.
    pub fn to_string(&self) -> (r: String)
        ensures
            r@ == uri_spelling(self@),
    {
        let cs = self.spelling_chars();
        string_of(cs.as_slice())
    }

    /// Parse one canonical node URI, refusing aliases and unknown roles.
    pub fn parse(uri: &str) -> (r: Result<NodeUri, NodeUriError>)
        ensures
            match r {
                Ok(a) => parse_uri(uri@) == Ok::<UriView, UriErrorView>(a@),
                Err(e) => parse_uri(uri@) == Err::<UriView, UriErrorView>(e@),
            },
    {
        let cs = chars_of(uri);
        let auth = vec!['m', 'o', 'r', 'p', 'h', 'i', 'r', ':', '/', '/', 'i', 'r', '/'];
        assert(auth@ =~= authority());
        if !starts_with(cs.as_slice(), auth.as_slice()) {
            return Err(invalid("wrong URI authority"));
        }
        let body = subrange(cs.as_slice(), 13, cs.len());
        assert(body@ =~= uri@.skip(13));
        let h = match find_char(body.as_slice(), '#') {
            None => {
                return Err(invalid("missing node fragment"));
            },
            Some(h) => h,
        };
        proof {
            crate::text::lemma_first_index(body@, '#');
        }
        let before = subrange(body.as_slice(), 0, h);
        let fragment = subrange(body.as_slice(), h + 1, body.len());
        assert(before@ =~= body@.take(h as int));
        assert(fragment@ =~= body@.skip(h as int + 1));
        if contains_char(fragment.as_slice(), '#') {
            return Err(invalid("duplicate fragment"));
        }
        let q = match find_char(before.as_slice(), '?') {
            None => {
                return Err(invalid("missing format query"));
            },
            Some(q) => q,
        };
        proof {
            crate::text::lemma_first_index(before@, '?');
        }
        let selector = subrange(before.as_slice(), 0, q);
        let query = subrange(before.as_slice(), q + 1, before.len());
        assert(selector@ =~= before@.take(q as int));
        assert(query@ =~= before@.skip(q as int + 1));
        let artifact = match parse_selector_in(selector.as_slice()) {
            Ok(a) => a,
            Err(e) => {
                return Err(e);
            },
        };
        let (format, revision, guard) = match parse_query_in(query.as_slice()) {
            Ok(x) => x,
            Err(e) => {
                return Err(e);
            },
        };
        let format = match format {
            None => {
                return Err(invalid("missing format"));
            },
            Some(f) => f,
        };
        parse_fragment_in(&fragment, artifact, format, revision, guard, &cs)
    }
}


// ---------------------------------------------------------------------------
// Every well-formed address reads back from its spelling
// ---------------------------------------------------------------------------

/// A non-empty path of valid names.
pub open spec fn nonempty_path(p: Seq<Seq<SegmentView>>) -> bool {
    p.len() > 0 && valid_path(p)
}

pub open spec fn owner_ok(o: OwnerView) -> bool {
    match o {
        OwnerView::OwnPackage => true,
        OwnerView::Dependency(p) => nonempty_path(p),
    }
}

pub open spec fn root_ok(r: RootView) -> bool {
    match r {
        RootView::Distribution => true,
        RootView::Package => true,
        RootView::Dependency(p) => nonempty_path(p),
        RootView::EntryPoint(n) => n.len() > 0,
        RootView::Module(o, m) => owner_ok(o) && nonempty_path(m),
        RootView::Type(o, m, n) => owner_ok(o) && nonempty_path(m) && valid_name(n),
        RootView::Value(o, m, n) => owner_ok(o) && nonempty_path(m) && valid_name(n),
    }
}

/// A well-formed address: valid names and paths, a valid workspace alias, canonical
/// digests, a dependency root only on its own, and a guard or a pinned revision whenever
/// a step is positional.
pub open spec fn uri_wf(a: UriView) -> bool {
    &&& match a.artifact {
        SelectorView::Package(p) => nonempty_path(p),
        SelectorView::Workspace(w) => lowercase_words(w),
    }
    &&& match a.revision {
        RevisionView::Current => true,
        RevisionView::Pinned(d) => lowercase_digest(d),
    }
    &&& match a.guard {
        None => true,
        Some(g) => lowercase_digest(g),
    }
    &&& root_ok(a.root)
    &&& (a.root is Dependency ==> a.steps.len() == 0)
    &&& forall|k: int| 0 <= k < a.steps.len() ==> step_ok(#[trigger] a.steps[k])
    &&& (a.revision is Current && a.guard is None ==> !has_positional(a.steps))
}

/// The characters a written part may hold.
pub open spec fn uri_safe(c: char) -> bool {
    crate::text::is_alnum(c) || c == '-' || c == '.' || c == '_' || c == '~' || c == '%'
}

pub open spec fn safe_text(s: Seq<char>) -> bool {
    forall|i: int| 0 <= i < s.len() ==> uri_safe(#[trigger] s[i])
}

pub open spec fn safe_byte(b: u8) -> bool {
    unreserved(b) || b == 37
}

proof fn lemma_percent_encode_safe(bs: Seq<u8>)
    ensures
        forall|i: int| 0 <= i < percent_encode(bs).len() ==> safe_byte(#[trigger] percent_encode(bs)[i]),
        bs.len() > 0 ==> percent_encode(bs).len() > 0,
    decreases bs.len(),
{
    if bs.len() > 0 {
        lemma_percent_encode_safe(bs.drop_first());
        let e = escape_byte(bs[0]);
        let rest = percent_encode(bs.drop_first());
        assert forall|i: int| 0 <= i < percent_encode(bs).len() implies safe_byte(#[trigger] percent_encode(bs)[i]) by {
            if i < e.len() {
                assert(percent_encode(bs)[i] == e[i]);
                if !unreserved(bs[0]) {
                    assert(bs[0] / 16 < 16);
                    assert(bs[0] % 16 < 16);
                }
            } else {
                assert(percent_encode(bs)[i] == rest[i - e.len()]);
            }
        }
    }
}

proof fn lemma_encode_utf8_nonempty(s: Seq<char>)
    requires
        s.len() > 0,
    ensures
        encode_utf8(s).len() > 0,
{
    let c = s[0] as u32;
    assert(encode_utf8(s) == vstd::utf8::encode_scalar(c) + encode_utf8(s.drop_first()));
}

/// An encoded component holds only URI-safe characters, and is empty only for the empty
/// string.
proof fn lemma_encoded_safe(s: Seq<char>)
    ensures
        safe_text(encoded_component(s)),
        s.len() > 0 ==> encoded_component(s).len() > 0,
{
    let b = encode_utf8(s);
    lemma_percent_encode_safe(b);
    if s.len() > 0 {
        lemma_encode_utf8_nonempty(s);
    }
    let e = percent_encode(b);
    assert forall|i: int| 0 <= i < encoded_component(s).len() implies uri_safe(#[trigger] encoded_component(s)[i]) by {
        assert(safe_byte(e[i]));
        assert(encoded_component(s)[i] == (e[i] as char));
    }
}

proof fn lemma_percent_roundtrip(bs: Seq<u8>)
    ensures
        percent_decode(percent_encode(bs)) == Ok::<Seq<u8>, UriErrorView>(bs),
    decreases bs.len(),
{
    if bs.len() == 0 {
        assert(percent_encode(bs) =~= Seq::<u8>::empty());
        assert(bs =~= Seq::<u8>::empty());
    } else {
        let b = bs[0];
        let rest = bs.drop_first();
        lemma_percent_roundtrip(rest);
        let e = percent_encode(bs);
        assert(e == escape_byte(b) + percent_encode(rest));
        if unreserved(b) {
            assert(e[0] == b);
            assert(e.skip(1) =~= percent_encode(rest));
            assert(seq![b] + rest =~= bs);
        } else {
            let h = b / 16;
            let l = b % 16;
            assert(e[0] == 37u8);
            assert(e[1] == upper_hex(h));
            assert(e[2] == upper_hex(l));
            assert(hex_value(upper_hex(h)) == Some(h));
            assert(hex_value(upper_hex(l)) == Some(l));
            assert((h * 16 + l) as u8 == b);
            assert(e.skip(3) =~= percent_encode(rest));
            assert(seq![b] + rest =~= bs);
        }
    }
}

proof fn lemma_ascii_bytes(bs: Seq<u8>)
    requires
        forall|i: int| 0 <= i < bs.len() ==> #[trigger] bs[i] < 128,
    ensures
        encode_utf8(ascii_text(bs)) == bs,
{
    let t = ascii_text(bs);
    assert(vstd::utf8::is_ascii_chars(t)) by {
        assert forall|i: int| 0 <= i < t.len() implies '\0' <= #[trigger] t[i] <= '\u{7f}' by {
            assert(t[i] == (bs[i] as char));
        }
    }
    vstd::utf8::is_ascii_chars_encode_utf8(t);
    assert forall|i: int| 0 <= i < bs.len() implies encode_utf8(t)[i] == bs[i] by {
        assert(t[i] == (bs[i] as char));
        assert((bs[i] as char) as u8 == bs[i]);
    }
    assert(encode_utf8(t) =~= bs);
}

/// A component reads back as the string it encodes.
pub proof fn lemma_component_roundtrip(s: Seq<char>)
    ensures
        decoded_component(encoded_component(s)) == Ok::<Seq<char>, UriErrorView>(s),
{
    let b = encode_utf8(s);
    let e = percent_encode(b);
    lemma_percent_encode_safe(b);
    assert forall|i: int| 0 <= i < e.len() implies #[trigger] e[i] < 128 by {
        assert(safe_byte(e[i]));
    }
    lemma_ascii_bytes(e);
    lemma_percent_roundtrip(b);
    vstd::utf8::encode_utf8_valid_utf8(s);
    vstd::utf8::encode_utf8_decode_utf8(s);
}

proof fn lemma_name_part_roundtrip(n: Seq<SegmentView>)
    requires
        valid_name(n),
    ensures
        parse_name_spec(name_part(n)) == Ok::<Seq<SegmentView>, UriErrorView>(n),
{
    lemma_component_roundtrip(name_text(n));
    crate::naming::name::lemma_canonical_roundtrip(n, canonical_style());
}

proof fn lemma_index_roundtrip(i: usize)
    ensures
        parse_index_spec(decimal(i as nat)) == Ok::<usize, UriErrorView>(i),
{
    crate::text::lemma_decimal_canonical(i as nat);
}

proof fn lemma_decimal_safe(n: nat)
    ensures
        safe_text(decimal(n)),
{
    crate::text::lemma_decimal_canonical(n);
    assert forall|i: int| 0 <= i < decimal(n).len() implies uri_safe(#[trigger] decimal(n)[i]) by {
        assert(crate::text::is_digit(decimal(n)[i]));
    }
}

proof fn lemma_keyword_safe(k: Keyword)
    ensures
        safe_text(keyword_spelling(k)),
        keyword_spelling(k).len() > 0,
{
    lemma_keyword_shape(k);
}

proof fn lemma_module_path_roundtrip(m: Seq<Seq<SegmentView>>)
    requires
        nonempty_path(m),
    ensures
        parse_module_path(path_part(m)) == Ok::<Seq<Seq<SegmentView>>, UriErrorView>(m),
        parse_package_spec(path_canonical(m)) == Ok::<Seq<Seq<SegmentView>>, UriErrorView>(m),
        decoded_component(path_part(m)) == Ok::<Seq<char>, UriErrorView>(path_canonical(m)),
        safe_text(path_part(m)),
{
    lemma_component_roundtrip(path_canonical(m));
    crate::naming::path::lemma_path_roundtrip(m);
    lemma_encoded_safe(path_canonical(m));
}


#[verifier::spinoff_prover]
#[verifier::rlimit(100)]
proof fn lemma_parse_step_render(s: StepView, ps: Seq<Seq<char>>, i: int)
    requires
        step_ok(s),
        0 <= i,
        i + step_parts(s).len() <= ps.len(),
        ps.subrange(i, i + step_parts(s).len() as int) == step_parts(s),
    ensures
        parse_step(ps, i) == Ok::<(StepView, int), UriErrorView>((s, step_parts(s).len() as int)),
{
    let sp = step_parts(s);
    match s {
        StepView::TypeExpression => {
            assert(ps[i + 0] == ps.subrange(i, i + sp.len() as int)[0]);
            lemma_keyword_roundtrip(Keyword::TypeExp);
        },
        StepView::Body => {
            assert(ps[i + 0] == ps.subrange(i, i + sp.len() as int)[0]);
            lemma_keyword_roundtrip(Keyword::Body);
        },
        StepView::ValueInputType(x) => {
            assert(ps[i + 0] == ps.subrange(i, i + sp.len() as int)[0]);
            lemma_keyword_roundtrip(Keyword::Input);
            assert(ps[i + 1] == ps.subrange(i, i + sp.len() as int)[1]);
            lemma_name_part_roundtrip(x);
        },
        StepView::ValueInputAnnotation(x) => {
            assert(ps[i + 0] == ps.subrange(i, i + sp.len() as int)[0]);
            lemma_keyword_roundtrip(Keyword::InputAnnotation);
            assert(ps[i + 1] == ps.subrange(i, i + sp.len() as int)[1]);
            lemma_name_part_roundtrip(x);
        },
        StepView::ValueOutputType => {
            assert(ps[i + 0] == ps.subrange(i, i + sp.len() as int)[0]);
            lemma_keyword_roundtrip(Keyword::Output);
        },
        StepView::DerivedBaseType => {
            assert(ps[i + 0] == ps.subrange(i, i + sp.len() as int)[0]);
            lemma_keyword_roundtrip(Keyword::Derived);
            assert(ps[i + 1] == ps.subrange(i, i + sp.len() as int)[1]);
            lemma_keyword_roundtrip(Keyword::BaseType);
        },
        StepView::PartialTypeExpression => {
            assert(ps[i + 0] == ps.subrange(i, i + sp.len() as int)[0]);
            lemma_keyword_roundtrip(Keyword::Incomplete);
            assert(ps[i + 1] == ps.subrange(i, i + sp.len() as int)[1]);
            lemma_keyword_roundtrip(Keyword::PartialType);
        },
        StepView::CustomConstructor(x) => {
            assert(ps[i + 0] == ps.subrange(i, i + sp.len() as int)[0]);
            lemma_keyword_roundtrip(Keyword::Constructor);
            assert(ps[i + 1] == ps.subrange(i, i + sp.len() as int)[1]);
            lemma_name_part_roundtrip(x);
        },
        StepView::ConstructorArgument(x) => {
            assert(ps[i + 0] == ps.subrange(i, i + sp.len() as int)[0]);
            lemma_keyword_roundtrip(Keyword::Argument);
            assert(ps[i + 1] == ps.subrange(i, i + sp.len() as int)[1]);
            lemma_index_roundtrip(x);
        },
        StepView::RecordField(x) => {
            assert(ps[i + 0] == ps.subrange(i, i + sp.len() as int)[0]);
            lemma_keyword_roundtrip(Keyword::Record);
            assert(ps[i + 1] == ps.subrange(i, i + sp.len() as int)[1]);
            lemma_keyword_roundtrip(Keyword::Field);
            assert(ps[i + 2] == ps.subrange(i, i + sp.len() as int)[2]);
            lemma_name_part_roundtrip(x);
        },
        StepView::ExtensibleRecordField(x) => {
            assert(ps[i + 0] == ps.subrange(i, i + sp.len() as int)[0]);
            lemma_keyword_roundtrip(Keyword::ExtensibleRecord);
            assert(ps[i + 1] == ps.subrange(i, i + sp.len() as int)[1]);
            lemma_keyword_roundtrip(Keyword::Field);
            assert(ps[i + 2] == ps.subrange(i, i + sp.len() as int)[2]);
            lemma_name_part_roundtrip(x);
        },
        StepView::TypeFunctionParameter => {
            assert(ps[i + 0] == ps.subrange(i, i + sp.len() as int)[0]);
            lemma_keyword_roundtrip(Keyword::Function);
            assert(ps[i + 1] == ps.subrange(i, i + sp.len() as int)[1]);
            lemma_keyword_roundtrip(Keyword::Parameter);
        },
        StepView::TypeFunctionResult => {
            assert(ps[i + 0] == ps.subrange(i, i + sp.len() as int)[0]);
            lemma_keyword_roundtrip(Keyword::Function);
            assert(ps[i + 1] == ps.subrange(i, i + sp.len() as int)[1]);
            lemma_keyword_roundtrip(Keyword::ResultRole);
        },
        StepView::ReferenceArgument(x) => {
            assert(ps[i + 0] == ps.subrange(i, i + sp.len() as int)[0]);
            lemma_keyword_roundtrip(Keyword::Reference);
            assert(ps[i + 1] == ps.subrange(i, i + sp.len() as int)[1]);
            lemma_keyword_roundtrip(Keyword::Argument);
            assert(ps[i + 2] == ps.subrange(i, i + sp.len() as int)[2]);
            lemma_index_roundtrip(x);
        },
        StepView::ApplyFunction => {
            assert(ps[i + 0] == ps.subrange(i, i + sp.len() as int)[0]);
            lemma_keyword_roundtrip(Keyword::Apply);
            assert(ps[i + 1] == ps.subrange(i, i + sp.len() as int)[1]);
            lemma_keyword_roundtrip(Keyword::Function);
        },
        StepView::ApplyArgument => {
            assert(ps[i + 0] == ps.subrange(i, i + sp.len() as int)[0]);
            lemma_keyword_roundtrip(Keyword::Apply);
            assert(ps[i + 1] == ps.subrange(i, i + sp.len() as int)[1]);
            lemma_keyword_roundtrip(Keyword::Argument);
        },
        StepView::FieldSubject => {
            assert(ps[i + 0] == ps.subrange(i, i + sp.len() as int)[0]);
            lemma_keyword_roundtrip(Keyword::Field);
            assert(ps[i + 1] == ps.subrange(i, i + sp.len() as int)[1]);
            lemma_keyword_roundtrip(Keyword::Subject);
        },
        StepView::DestructurePattern => {
            assert(ps[i + 0] == ps.subrange(i, i + sp.len() as int)[0]);
            lemma_keyword_roundtrip(Keyword::Destructure);
            assert(ps[i + 1] == ps.subrange(i, i + sp.len() as int)[1]);
            lemma_keyword_roundtrip(Keyword::Pattern);
        },
        StepView::DestructureValue => {
            assert(ps[i + 0] == ps.subrange(i, i + sp.len() as int)[0]);
            lemma_keyword_roundtrip(Keyword::Destructure);
            assert(ps[i + 1] == ps.subrange(i, i + sp.len() as int)[1]);
            lemma_keyword_roundtrip(Keyword::Value);
        },
        StepView::DestructureBody => {
            assert(ps[i + 0] == ps.subrange(i, i + sp.len() as int)[0]);
            lemma_keyword_roundtrip(Keyword::Destructure);
            assert(ps[i + 1] == ps.subrange(i, i + sp.len() as int)[1]);
            lemma_keyword_roundtrip(Keyword::Body);
        },
        StepView::IfCondition => {
            assert(ps[i + 0] == ps.subrange(i, i + sp.len() as int)[0]);
            lemma_keyword_roundtrip(Keyword::If);
            assert(ps[i + 1] == ps.subrange(i, i + sp.len() as int)[1]);
            lemma_keyword_roundtrip(Keyword::Condition);
        },
        StepView::IfThen => {
            assert(ps[i + 0] == ps.subrange(i, i + sp.len() as int)[0]);
            lemma_keyword_roundtrip(Keyword::If);
            assert(ps[i + 1] == ps.subrange(i, i + sp.len() as int)[1]);
            lemma_keyword_roundtrip(Keyword::Then);
        },
        StepView::IfElse => {
            assert(ps[i + 0] == ps.subrange(i, i + sp.len() as int)[0]);
            lemma_keyword_roundtrip(Keyword::If);
            assert(ps[i + 1] == ps.subrange(i, i + sp.len() as int)[1]);
            lemma_keyword_roundtrip(Keyword::Else);
        },
        StepView::LambdaPattern => {
            assert(ps[i + 0] == ps.subrange(i, i + sp.len() as int)[0]);
            lemma_keyword_roundtrip(Keyword::Lambda);
            assert(ps[i + 1] == ps.subrange(i, i + sp.len() as int)[1]);
            lemma_keyword_roundtrip(Keyword::Pattern);
        },
        StepView::LambdaBody => {
            assert(ps[i + 0] == ps.subrange(i, i + sp.len() as int)[0]);
            lemma_keyword_roundtrip(Keyword::Lambda);
            assert(ps[i + 1] == ps.subrange(i, i + sp.len() as int)[1]);
            lemma_keyword_roundtrip(Keyword::Body);
        },
        StepView::LetDefinition(x) => {
            assert(ps[i + 0] == ps.subrange(i, i + sp.len() as int)[0]);
            lemma_keyword_roundtrip(Keyword::Let);
            assert(ps[i + 1] == ps.subrange(i, i + sp.len() as int)[1]);
            lemma_keyword_roundtrip(Keyword::Definition);
            assert(ps[i + 2] == ps.subrange(i, i + sp.len() as int)[2]);
            lemma_name_part_roundtrip(x);
        },
        StepView::LetBody => {
            assert(ps[i + 0] == ps.subrange(i, i + sp.len() as int)[0]);
            lemma_keyword_roundtrip(Keyword::Let);
            assert(ps[i + 1] == ps.subrange(i, i + sp.len() as int)[1]);
            lemma_keyword_roundtrip(Keyword::Body);
        },
        StepView::ListElement(x) => {
            assert(ps[i + 0] == ps.subrange(i, i + sp.len() as int)[0]);
            lemma_keyword_roundtrip(Keyword::List);
            assert(ps[i + 1] == ps.subrange(i, i + sp.len() as int)[1]);
            lemma_keyword_roundtrip(Keyword::Element);
            assert(ps[i + 2] == ps.subrange(i, i + sp.len() as int)[2]);
            lemma_index_roundtrip(x);
        },
        StepView::PatternMatchSubject => {
            assert(ps[i + 0] == ps.subrange(i, i + sp.len() as int)[0]);
            lemma_keyword_roundtrip(Keyword::PatternMatch);
            assert(ps[i + 1] == ps.subrange(i, i + sp.len() as int)[1]);
            lemma_keyword_roundtrip(Keyword::Subject);
        },
        StepView::TupleElement(x) => {
            assert(ps[i + 0] == ps.subrange(i, i + sp.len() as int)[0]);
            lemma_keyword_roundtrip(Keyword::Tuple);
            assert(ps[i + 1] == ps.subrange(i, i + sp.len() as int)[1]);
            lemma_keyword_roundtrip(Keyword::Element);
            assert(ps[i + 2] == ps.subrange(i, i + sp.len() as int)[2]);
            lemma_index_roundtrip(x);
        },
        StepView::PatternMatchCasePattern(x) => {
            assert(ps[i + 0] == ps.subrange(i, i + sp.len() as int)[0]);
            lemma_keyword_roundtrip(Keyword::PatternMatch);
            assert(ps[i + 1] == ps.subrange(i, i + sp.len() as int)[1]);
            lemma_keyword_roundtrip(Keyword::Case);
            assert(ps[i + 2] == ps.subrange(i, i + sp.len() as int)[2]);
            lemma_index_roundtrip(x);
            assert(ps[i + 3] == ps.subrange(i, i + sp.len() as int)[3]);
            lemma_keyword_roundtrip(Keyword::Pattern);
        },
        StepView::PatternMatchCaseBody(x) => {
            assert(ps[i + 0] == ps.subrange(i, i + sp.len() as int)[0]);
            lemma_keyword_roundtrip(Keyword::PatternMatch);
            assert(ps[i + 1] == ps.subrange(i, i + sp.len() as int)[1]);
            lemma_keyword_roundtrip(Keyword::Case);
            assert(ps[i + 2] == ps.subrange(i, i + sp.len() as int)[2]);
            lemma_index_roundtrip(x);
            assert(ps[i + 3] == ps.subrange(i, i + sp.len() as int)[3]);
            lemma_keyword_roundtrip(Keyword::Body);
        },
        StepView::UpdateSubject => {
            assert(ps[i + 0] == ps.subrange(i, i + sp.len() as int)[0]);
            lemma_keyword_roundtrip(Keyword::Update);
            assert(ps[i + 1] == ps.subrange(i, i + sp.len() as int)[1]);
            lemma_keyword_roundtrip(Keyword::Subject);
        },
        StepView::UpdateField(x) => {
            assert(ps[i + 0] == ps.subrange(i, i + sp.len() as int)[0]);
            lemma_keyword_roundtrip(Keyword::Update);
            assert(ps[i + 1] == ps.subrange(i, i + sp.len() as int)[1]);
            lemma_keyword_roundtrip(Keyword::Field);
            assert(ps[i + 2] == ps.subrange(i, i + sp.len() as int)[2]);
            lemma_name_part_roundtrip(x);
        },
        StepView::AsPatternChild => {
            assert(ps[i + 0] == ps.subrange(i, i + sp.len() as int)[0]);
            lemma_keyword_roundtrip(Keyword::AsPattern);
            assert(ps[i + 1] == ps.subrange(i, i + sp.len() as int)[1]);
            lemma_keyword_roundtrip(Keyword::Pattern);
        },
        StepView::PatternTupleElement(x) => {
            assert(ps[i + 0] == ps.subrange(i, i + sp.len() as int)[0]);
            lemma_keyword_roundtrip(Keyword::TuplePattern);
            assert(ps[i + 1] == ps.subrange(i, i + sp.len() as int)[1]);
            lemma_keyword_roundtrip(Keyword::Element);
            assert(ps[i + 2] == ps.subrange(i, i + sp.len() as int)[2]);
            lemma_index_roundtrip(x);
        },
        StepView::PatternConstructorArgument(x) => {
            assert(ps[i + 0] == ps.subrange(i, i + sp.len() as int)[0]);
            lemma_keyword_roundtrip(Keyword::ConstructorPattern);
            assert(ps[i + 1] == ps.subrange(i, i + sp.len() as int)[1]);
            lemma_keyword_roundtrip(Keyword::Argument);
            assert(ps[i + 2] == ps.subrange(i, i + sp.len() as int)[2]);
            lemma_index_roundtrip(x);
        },
        StepView::HeadTailHead => {
            assert(ps[i + 0] == ps.subrange(i, i + sp.len() as int)[0]);
            lemma_keyword_roundtrip(Keyword::HeadTail);
            assert(ps[i + 1] == ps.subrange(i, i + sp.len() as int)[1]);
            lemma_keyword_roundtrip(Keyword::Head);
        },
        StepView::HeadTailTail => {
            assert(ps[i + 0] == ps.subrange(i, i + sp.len() as int)[0]);
            lemma_keyword_roundtrip(Keyword::HeadTail);
            assert(ps[i + 1] == ps.subrange(i, i + sp.len() as int)[1]);
            lemma_keyword_roundtrip(Keyword::Tail);
        },
        StepView::ExternalFallback => {
            assert(ps[i + 0] == ps.subrange(i, i + sp.len() as int)[0]);
            lemma_keyword_roundtrip(Keyword::External);
            assert(ps[i + 1] == ps.subrange(i, i + sp.len() as int)[1]);
            lemma_keyword_roundtrip(Keyword::Fallback);
        },
        StepView::IncompletePartialBody => {
            assert(ps[i + 0] == ps.subrange(i, i + sp.len() as int)[0]);
            lemma_keyword_roundtrip(Keyword::Incomplete);
            assert(ps[i + 1] == ps.subrange(i, i + sp.len() as int)[1]);
            lemma_keyword_roundtrip(Keyword::PartialBody);
        },
        StepView::HoleExpectedType => {
            assert(ps[i + 0] == ps.subrange(i, i + sp.len() as int)[0]);
            lemma_keyword_roundtrip(Keyword::Hole);
            assert(ps[i + 1] == ps.subrange(i, i + sp.len() as int)[1]);
            lemma_keyword_roundtrip(Keyword::ExpectedType);
        },
    }
}

/// The first part of a step is a keyword, and never `type` or `value`.
proof fn lemma_step_first_keyword(s: StepView)
    ensures
        step_parts(s).len() >= 1,
        keyword_of(step_parts(s)[0]) matches Some(k) && k != Keyword::Type && k != Keyword::Value,
{
    match s {
        StepView::TypeExpression => lemma_keyword_roundtrip(Keyword::TypeExp),
        StepView::Body => lemma_keyword_roundtrip(Keyword::Body),
        StepView::ValueInputType(_) => lemma_keyword_roundtrip(Keyword::Input),
        StepView::ValueInputAnnotation(_) => lemma_keyword_roundtrip(Keyword::InputAnnotation),
        StepView::ValueOutputType => lemma_keyword_roundtrip(Keyword::Output),
        StepView::DerivedBaseType => lemma_keyword_roundtrip(Keyword::Derived),
        StepView::PartialTypeExpression => lemma_keyword_roundtrip(Keyword::Incomplete),
        StepView::CustomConstructor(_) => lemma_keyword_roundtrip(Keyword::Constructor),
        StepView::ConstructorArgument(_) => lemma_keyword_roundtrip(Keyword::Argument),
        StepView::RecordField(_) => lemma_keyword_roundtrip(Keyword::Record),
        StepView::ExtensibleRecordField(_) => lemma_keyword_roundtrip(Keyword::ExtensibleRecord),
        StepView::TypeFunctionParameter => lemma_keyword_roundtrip(Keyword::Function),
        StepView::TypeFunctionResult => lemma_keyword_roundtrip(Keyword::Function),
        StepView::ReferenceArgument(_) => lemma_keyword_roundtrip(Keyword::Reference),
        StepView::ApplyFunction => lemma_keyword_roundtrip(Keyword::Apply),
        StepView::ApplyArgument => lemma_keyword_roundtrip(Keyword::Apply),
        StepView::FieldSubject => lemma_keyword_roundtrip(Keyword::Field),
        StepView::DestructurePattern => lemma_keyword_roundtrip(Keyword::Destructure),
        StepView::DestructureValue => lemma_keyword_roundtrip(Keyword::Destructure),
        StepView::DestructureBody => lemma_keyword_roundtrip(Keyword::Destructure),
        StepView::IfCondition => lemma_keyword_roundtrip(Keyword::If),
        StepView::IfThen => lemma_keyword_roundtrip(Keyword::If),
        StepView::IfElse => lemma_keyword_roundtrip(Keyword::If),
        StepView::LambdaPattern => lemma_keyword_roundtrip(Keyword::Lambda),
        StepView::LambdaBody => lemma_keyword_roundtrip(Keyword::Lambda),
        StepView::LetDefinition(_) => lemma_keyword_roundtrip(Keyword::Let),
        StepView::LetBody => lemma_keyword_roundtrip(Keyword::Let),
        StepView::ListElement(_) => lemma_keyword_roundtrip(Keyword::List),
        StepView::PatternMatchSubject => lemma_keyword_roundtrip(Keyword::PatternMatch),
        StepView::TupleElement(_) => lemma_keyword_roundtrip(Keyword::Tuple),
        StepView::PatternMatchCasePattern(_) => lemma_keyword_roundtrip(Keyword::PatternMatch),
        StepView::PatternMatchCaseBody(_) => lemma_keyword_roundtrip(Keyword::PatternMatch),
        StepView::UpdateSubject => lemma_keyword_roundtrip(Keyword::Update),
        StepView::UpdateField(_) => lemma_keyword_roundtrip(Keyword::Update),
        StepView::AsPatternChild => lemma_keyword_roundtrip(Keyword::AsPattern),
        StepView::PatternTupleElement(_) => lemma_keyword_roundtrip(Keyword::TuplePattern),
        StepView::PatternConstructorArgument(_) => lemma_keyword_roundtrip(Keyword::ConstructorPattern),
        StepView::HeadTailHead => lemma_keyword_roundtrip(Keyword::HeadTail),
        StepView::HeadTailTail => lemma_keyword_roundtrip(Keyword::HeadTail),
        StepView::ExternalFallback => lemma_keyword_roundtrip(Keyword::External),
        StepView::IncompletePartialBody => lemma_keyword_roundtrip(Keyword::Incomplete),
        StepView::HoleExpectedType => lemma_keyword_roundtrip(Keyword::Hole),
    }
}

proof fn lemma_step_parts_safe(s: StepView)
    ensures
        step_parts(s).len() >= 1,
        forall|k: int| 0 <= k < step_parts(s).len() ==> safe_text(#[trigger] step_parts(s)[k]),
{
    let sp = step_parts(s);
    match s {
        StepView::TypeExpression => {
            lemma_keyword_safe(Keyword::TypeExp);
            assert forall|k: int| 0 <= k < sp.len() implies safe_text(#[trigger] sp[k]) by {
                if k == 0 {}
            }
        },
        StepView::Body => {
            lemma_keyword_safe(Keyword::Body);
            assert forall|k: int| 0 <= k < sp.len() implies safe_text(#[trigger] sp[k]) by {
                if k == 0 {}
            }
        },
        StepView::ValueInputType(x) => {
            lemma_keyword_safe(Keyword::Input);
            lemma_encoded_safe(name_text(x));
            assert forall|k: int| 0 <= k < sp.len() implies safe_text(#[trigger] sp[k]) by {
                if k == 0 {}
                if k == 1 {}
            }
        },
        StepView::ValueInputAnnotation(x) => {
            lemma_keyword_safe(Keyword::InputAnnotation);
            lemma_encoded_safe(name_text(x));
            assert forall|k: int| 0 <= k < sp.len() implies safe_text(#[trigger] sp[k]) by {
                if k == 0 {}
                if k == 1 {}
            }
        },
        StepView::ValueOutputType => {
            lemma_keyword_safe(Keyword::Output);
            assert forall|k: int| 0 <= k < sp.len() implies safe_text(#[trigger] sp[k]) by {
                if k == 0 {}
            }
        },
        StepView::DerivedBaseType => {
            lemma_keyword_safe(Keyword::Derived);
            lemma_keyword_safe(Keyword::BaseType);
            assert forall|k: int| 0 <= k < sp.len() implies safe_text(#[trigger] sp[k]) by {
                if k == 0 {}
                if k == 1 {}
            }
        },
        StepView::PartialTypeExpression => {
            lemma_keyword_safe(Keyword::Incomplete);
            lemma_keyword_safe(Keyword::PartialType);
            assert forall|k: int| 0 <= k < sp.len() implies safe_text(#[trigger] sp[k]) by {
                if k == 0 {}
                if k == 1 {}
            }
        },
        StepView::CustomConstructor(x) => {
            lemma_keyword_safe(Keyword::Constructor);
            lemma_encoded_safe(name_text(x));
            assert forall|k: int| 0 <= k < sp.len() implies safe_text(#[trigger] sp[k]) by {
                if k == 0 {}
                if k == 1 {}
            }
        },
        StepView::ConstructorArgument(x) => {
            lemma_keyword_safe(Keyword::Argument);
            lemma_decimal_safe(x as nat);
            assert forall|k: int| 0 <= k < sp.len() implies safe_text(#[trigger] sp[k]) by {
                if k == 0 {}
                if k == 1 {}
            }
        },
        StepView::RecordField(x) => {
            lemma_keyword_safe(Keyword::Record);
            lemma_keyword_safe(Keyword::Field);
            lemma_encoded_safe(name_text(x));
            assert forall|k: int| 0 <= k < sp.len() implies safe_text(#[trigger] sp[k]) by {
                if k == 0 {}
                if k == 1 {}
                if k == 2 {}
            }
        },
        StepView::ExtensibleRecordField(x) => {
            lemma_keyword_safe(Keyword::ExtensibleRecord);
            lemma_keyword_safe(Keyword::Field);
            lemma_encoded_safe(name_text(x));
            assert forall|k: int| 0 <= k < sp.len() implies safe_text(#[trigger] sp[k]) by {
                if k == 0 {}
                if k == 1 {}
                if k == 2 {}
            }
        },
        StepView::TypeFunctionParameter => {
            lemma_keyword_safe(Keyword::Function);
            lemma_keyword_safe(Keyword::Parameter);
            assert forall|k: int| 0 <= k < sp.len() implies safe_text(#[trigger] sp[k]) by {
                if k == 0 {}
                if k == 1 {}
            }
        },
        StepView::TypeFunctionResult => {
            lemma_keyword_safe(Keyword::Function);
            lemma_keyword_safe(Keyword::ResultRole);
            assert forall|k: int| 0 <= k < sp.len() implies safe_text(#[trigger] sp[k]) by {
                if k == 0 {}
                if k == 1 {}
            }
        },
        StepView::ReferenceArgument(x) => {
            lemma_keyword_safe(Keyword::Reference);
            lemma_keyword_safe(Keyword::Argument);
            lemma_decimal_safe(x as nat);
            assert forall|k: int| 0 <= k < sp.len() implies safe_text(#[trigger] sp[k]) by {
                if k == 0 {}
                if k == 1 {}
                if k == 2 {}
            }
        },
        StepView::ApplyFunction => {
            lemma_keyword_safe(Keyword::Apply);
            lemma_keyword_safe(Keyword::Function);
            assert forall|k: int| 0 <= k < sp.len() implies safe_text(#[trigger] sp[k]) by {
                if k == 0 {}
                if k == 1 {}
            }
        },
        StepView::ApplyArgument => {
            lemma_keyword_safe(Keyword::Apply);
            lemma_keyword_safe(Keyword::Argument);
            assert forall|k: int| 0 <= k < sp.len() implies safe_text(#[trigger] sp[k]) by {
                if k == 0 {}
                if k == 1 {}
            }
        },
        StepView::FieldSubject => {
            lemma_keyword_safe(Keyword::Field);
            lemma_keyword_safe(Keyword::Subject);
            assert forall|k: int| 0 <= k < sp.len() implies safe_text(#[trigger] sp[k]) by {
                if k == 0 {}
                if k == 1 {}
            }
        },
        StepView::DestructurePattern => {
            lemma_keyword_safe(Keyword::Destructure);
            lemma_keyword_safe(Keyword::Pattern);
            assert forall|k: int| 0 <= k < sp.len() implies safe_text(#[trigger] sp[k]) by {
                if k == 0 {}
                if k == 1 {}
            }
        },
        StepView::DestructureValue => {
            lemma_keyword_safe(Keyword::Destructure);
            lemma_keyword_safe(Keyword::Value);
            assert forall|k: int| 0 <= k < sp.len() implies safe_text(#[trigger] sp[k]) by {
                if k == 0 {}
                if k == 1 {}
            }
        },
        StepView::DestructureBody => {
            lemma_keyword_safe(Keyword::Destructure);
            lemma_keyword_safe(Keyword::Body);
            assert forall|k: int| 0 <= k < sp.len() implies safe_text(#[trigger] sp[k]) by {
                if k == 0 {}
                if k == 1 {}
            }
        },
        StepView::IfCondition => {
            lemma_keyword_safe(Keyword::If);
            lemma_keyword_safe(Keyword::Condition);
            assert forall|k: int| 0 <= k < sp.len() implies safe_text(#[trigger] sp[k]) by {
                if k == 0 {}
                if k == 1 {}
            }
        },
        StepView::IfThen => {
            lemma_keyword_safe(Keyword::If);
            lemma_keyword_safe(Keyword::Then);
            assert forall|k: int| 0 <= k < sp.len() implies safe_text(#[trigger] sp[k]) by {
                if k == 0 {}
                if k == 1 {}
            }
        },
        StepView::IfElse => {
            lemma_keyword_safe(Keyword::If);
            lemma_keyword_safe(Keyword::Else);
            assert forall|k: int| 0 <= k < sp.len() implies safe_text(#[trigger] sp[k]) by {
                if k == 0 {}
                if k == 1 {}
            }
        },
        StepView::LambdaPattern => {
            lemma_keyword_safe(Keyword::Lambda);
            lemma_keyword_safe(Keyword::Pattern);
            assert forall|k: int| 0 <= k < sp.len() implies safe_text(#[trigger] sp[k]) by {
                if k == 0 {}
                if k == 1 {}
            }
        },
        StepView::LambdaBody => {
            lemma_keyword_safe(Keyword::Lambda);
            lemma_keyword_safe(Keyword::Body);
            assert forall|k: int| 0 <= k < sp.len() implies safe_text(#[trigger] sp[k]) by {
                if k == 0 {}
                if k == 1 {}
            }
        },
        StepView::LetDefinition(x) => {
            lemma_keyword_safe(Keyword::Let);
            lemma_keyword_safe(Keyword::Definition);
            lemma_encoded_safe(name_text(x));
            assert forall|k: int| 0 <= k < sp.len() implies safe_text(#[trigger] sp[k]) by {
                if k == 0 {}
                if k == 1 {}
                if k == 2 {}
            }
        },
        StepView::LetBody => {
            lemma_keyword_safe(Keyword::Let);
            lemma_keyword_safe(Keyword::Body);
            assert forall|k: int| 0 <= k < sp.len() implies safe_text(#[trigger] sp[k]) by {
                if k == 0 {}
                if k == 1 {}
            }
        },
        StepView::ListElement(x) => {
            lemma_keyword_safe(Keyword::List);
            lemma_keyword_safe(Keyword::Element);
            lemma_decimal_safe(x as nat);
            assert forall|k: int| 0 <= k < sp.len() implies safe_text(#[trigger] sp[k]) by {
                if k == 0 {}
                if k == 1 {}
                if k == 2 {}
            }
        },
        StepView::PatternMatchSubject => {
            lemma_keyword_safe(Keyword::PatternMatch);
            lemma_keyword_safe(Keyword::Subject);
            assert forall|k: int| 0 <= k < sp.len() implies safe_text(#[trigger] sp[k]) by {
                if k == 0 {}
                if k == 1 {}
            }
        },
        StepView::TupleElement(x) => {
            lemma_keyword_safe(Keyword::Tuple);
            lemma_keyword_safe(Keyword::Element);
            lemma_decimal_safe(x as nat);
            assert forall|k: int| 0 <= k < sp.len() implies safe_text(#[trigger] sp[k]) by {
                if k == 0 {}
                if k == 1 {}
                if k == 2 {}
            }
        },
        StepView::PatternMatchCasePattern(x) => {
            lemma_keyword_safe(Keyword::PatternMatch);
            lemma_keyword_safe(Keyword::Case);
            lemma_decimal_safe(x as nat);
            lemma_keyword_safe(Keyword::Pattern);
            assert forall|k: int| 0 <= k < sp.len() implies safe_text(#[trigger] sp[k]) by {
                if k == 0 {}
                if k == 1 {}
                if k == 2 {}
                if k == 3 {}
            }
        },
        StepView::PatternMatchCaseBody(x) => {
            lemma_keyword_safe(Keyword::PatternMatch);
            lemma_keyword_safe(Keyword::Case);
            lemma_decimal_safe(x as nat);
            lemma_keyword_safe(Keyword::Body);
            assert forall|k: int| 0 <= k < sp.len() implies safe_text(#[trigger] sp[k]) by {
                if k == 0 {}
                if k == 1 {}
                if k == 2 {}
                if k == 3 {}
            }
        },
        StepView::UpdateSubject => {
            lemma_keyword_safe(Keyword::Update);
            lemma_keyword_safe(Keyword::Subject);
            assert forall|k: int| 0 <= k < sp.len() implies safe_text(#[trigger] sp[k]) by {
                if k == 0 {}
                if k == 1 {}
            }
        },
        StepView::UpdateField(x) => {
            lemma_keyword_safe(Keyword::Update);
            lemma_keyword_safe(Keyword::Field);
            lemma_encoded_safe(name_text(x));
            assert forall|k: int| 0 <= k < sp.len() implies safe_text(#[trigger] sp[k]) by {
                if k == 0 {}
                if k == 1 {}
                if k == 2 {}
            }
        },
        StepView::AsPatternChild => {
            lemma_keyword_safe(Keyword::AsPattern);
            lemma_keyword_safe(Keyword::Pattern);
            assert forall|k: int| 0 <= k < sp.len() implies safe_text(#[trigger] sp[k]) by {
                if k == 0 {}
                if k == 1 {}
            }
        },
        StepView::PatternTupleElement(x) => {
            lemma_keyword_safe(Keyword::TuplePattern);
            lemma_keyword_safe(Keyword::Element);
            lemma_decimal_safe(x as nat);
            assert forall|k: int| 0 <= k < sp.len() implies safe_text(#[trigger] sp[k]) by {
                if k == 0 {}
                if k == 1 {}
                if k == 2 {}
            }
        },
        StepView::PatternConstructorArgument(x) => {
            lemma_keyword_safe(Keyword::ConstructorPattern);
            lemma_keyword_safe(Keyword::Argument);
            lemma_decimal_safe(x as nat);
            assert forall|k: int| 0 <= k < sp.len() implies safe_text(#[trigger] sp[k]) by {
                if k == 0 {}
                if k == 1 {}
                if k == 2 {}
            }
        },
        StepView::HeadTailHead => {
            lemma_keyword_safe(Keyword::HeadTail);
            lemma_keyword_safe(Keyword::Head);
            assert forall|k: int| 0 <= k < sp.len() implies safe_text(#[trigger] sp[k]) by {
                if k == 0 {}
                if k == 1 {}
            }
        },
        StepView::HeadTailTail => {
            lemma_keyword_safe(Keyword::HeadTail);
            lemma_keyword_safe(Keyword::Tail);
            assert forall|k: int| 0 <= k < sp.len() implies safe_text(#[trigger] sp[k]) by {
                if k == 0 {}
                if k == 1 {}
            }
        },
        StepView::ExternalFallback => {
            lemma_keyword_safe(Keyword::External);
            lemma_keyword_safe(Keyword::Fallback);
            assert forall|k: int| 0 <= k < sp.len() implies safe_text(#[trigger] sp[k]) by {
                if k == 0 {}
                if k == 1 {}
            }
        },
        StepView::IncompletePartialBody => {
            lemma_keyword_safe(Keyword::Incomplete);
            lemma_keyword_safe(Keyword::PartialBody);
            assert forall|k: int| 0 <= k < sp.len() implies safe_text(#[trigger] sp[k]) by {
                if k == 0 {}
                if k == 1 {}
            }
        },
        StepView::HoleExpectedType => {
            lemma_keyword_safe(Keyword::Hole);
            lemma_keyword_safe(Keyword::ExpectedType);
            assert forall|k: int| 0 <= k < sp.len() implies safe_text(#[trigger] sp[k]) by {
                if k == 0 {}
                if k == 1 {}
            }
        },
    }
}

proof fn lemma_steps_parts_safe(ss: Seq<StepView>)
    ensures
        forall|k: int| 0 <= k < steps_parts(ss).len() ==> safe_text(#[trigger] steps_parts(ss)[k]),
    decreases ss.len(),
{
    if ss.len() > 0 {
        lemma_step_parts_safe(ss[0]);
        lemma_steps_parts_safe(ss.drop_first());
        let a = step_parts(ss[0]);
        let b = steps_parts(ss.drop_first());
        assert forall|k: int| 0 <= k < steps_parts(ss).len() implies safe_text(#[trigger] steps_parts(ss)[k]) by {
            if k < a.len() {
                assert(steps_parts(ss)[k] == a[k]);
            } else {
                assert(steps_parts(ss)[k] == b[k - a.len()]);
            }
        }
    }
}

proof fn lemma_parse_steps_render(ss: Seq<StepView>, ps: Seq<Seq<char>>, i: int)
    requires
        forall|k: int| 0 <= k < ss.len() ==> step_ok(#[trigger] ss[k]),
        0 <= i <= ps.len(),
        ps.skip(i) == steps_parts(ss),
    ensures
        parse_steps_from(ps, i) == Ok::<Seq<StepView>, UriErrorView>(ss),
    decreases ss.len(),
{
    if ss.len() == 0 {
        assert(ps.skip(i).len() == 0);
        assert(ss =~= Seq::<StepView>::empty());
    } else {
        let s = ss[0];
        let rest = ss.drop_first();
        let sp = step_parts(s);
        assert(steps_parts(ss) == sp + steps_parts(rest));
        lemma_step_parts_safe(s);
        assert(step_ok(ss[0]));
        assert(ps.subrange(i, i + sp.len() as int) =~= sp) by {
            assert forall|k: int| 0 <= k < sp.len() implies ps.subrange(i, i + sp.len() as int)[k]
                == sp[k] by {
                assert(ps.skip(i)[k] == ps[i + k]);
                assert(steps_parts(ss)[k] == sp[k]);
            }
        }
        lemma_parse_step_render(s, ps, i);
        assert(ps.skip(i + sp.len() as int) =~= steps_parts(rest)) by {
            assert forall|k: int| 0 <= k < steps_parts(rest).len() implies ps.skip(
                i + sp.len() as int,
            )[k] == steps_parts(rest)[k] by {
                assert(ps.skip(i)[sp.len() + k] == ps[i + sp.len() + k]);
                assert(steps_parts(ss)[sp.len() + k] == steps_parts(rest)[k]);
            }
        }
        assert forall|k: int| 0 <= k < rest.len() implies step_ok(#[trigger] rest[k]) by {
            assert(rest[k] == ss[k + 1]);
        }
        lemma_parse_steps_render(rest, ps, i + sp.len() as int);
        assert(seq![s] + rest =~= ss);
    }
}

proof fn lemma_owner_parts_safe(o: OwnerView)
    requires
        owner_ok(o),
    ensures
        forall|k: int| 0 <= k < owner_parts(o).len() ==> safe_text(#[trigger] owner_parts(o)[k]),
{
    match o {
        OwnerView::OwnPackage => {},
        OwnerView::Dependency(p) => {
            lemma_keyword_safe(Keyword::Dependency);
            lemma_module_path_roundtrip(p);
            let op = owner_parts(o);
            assert forall|k: int| 0 <= k < op.len() implies safe_text(#[trigger] op[k]) by {
                if k == 0 {
                } else {
                }
            }
        },
    }
}

proof fn lemma_safe_parts_concat(a: Seq<Seq<char>>, b: Seq<Seq<char>>)
    requires
        forall|k: int| 0 <= k < a.len() ==> safe_text(#[trigger] a[k]),
        forall|k: int| 0 <= k < b.len() ==> safe_text(#[trigger] b[k]),
    ensures
        forall|k: int| 0 <= k < (a + b).len() ==> safe_text(#[trigger] (a + b)[k]),
{
    assert forall|k: int| 0 <= k < (a + b).len() implies safe_text(#[trigger] (a + b)[k]) by {
        if k < a.len() {
            assert((a + b)[k] == a[k]);
        } else {
            assert((a + b)[k] == b[k - a.len()]);
        }
    }
}

#[verifier::spinoff_prover]
proof fn lemma_root_parts_safe(r: RootView)
    requires
        root_ok(r),
    ensures
        root_parts(r).len() >= 1,
        forall|k: int| 0 <= k < root_parts(r).len() ==> safe_text(#[trigger] root_parts(r)[k]),
{
    let rp = root_parts(r);
    match r {
        RootView::Distribution => {
            lemma_keyword_safe(Keyword::Distribution);
            assert forall|k: int| 0 <= k < rp.len() implies safe_text(#[trigger] rp[k]) by {}
        },
        RootView::Package => {
            lemma_keyword_safe(Keyword::Package);
            assert forall|k: int| 0 <= k < rp.len() implies safe_text(#[trigger] rp[k]) by {}
        },
        RootView::Dependency(p) => {
            lemma_owner_parts_safe(OwnerView::Dependency(p));
            assert(rp == owner_parts(OwnerView::Dependency(p)));
        },
        RootView::EntryPoint(n) => {
            lemma_keyword_safe(Keyword::EntryPoint);
            lemma_encoded_safe(n);
            assert forall|k: int| 0 <= k < rp.len() implies safe_text(#[trigger] rp[k]) by {
                if k == 0 {
                } else {
                }
            }
        },
        RootView::Module(o, m) => {
            lemma_owner_parts_safe(o);
            lemma_keyword_safe(Keyword::Module);
            lemma_module_path_roundtrip(m);
            let t = seq![kw(Keyword::Module), path_part(m)];
            assert forall|k: int| 0 <= k < t.len() implies safe_text(#[trigger] t[k]) by {
                if k == 0 {
                } else {
                }
            }
            lemma_safe_parts_concat(owner_parts(o), t);
        },
        RootView::Type(o, m, n) => {
            lemma_owner_parts_safe(o);
            lemma_keyword_safe(Keyword::Module);
            lemma_keyword_safe(Keyword::Type);
            lemma_module_path_roundtrip(m);
            lemma_encoded_safe(name_text(n));
            let t = seq![kw(Keyword::Module), path_part(m), kw(Keyword::Type), name_part(n)];
            assert forall|k: int| 0 <= k < t.len() implies safe_text(#[trigger] t[k]) by {
                if k == 0 {
                } else if k == 1 {
                } else if k == 2 {
                } else {
                }
            }
            lemma_safe_parts_concat(owner_parts(o), t);
        },
        RootView::Value(o, m, n) => {
            lemma_owner_parts_safe(o);
            lemma_keyword_safe(Keyword::Module);
            lemma_keyword_safe(Keyword::Value);
            lemma_module_path_roundtrip(m);
            lemma_encoded_safe(name_text(n));
            let t = seq![kw(Keyword::Module), path_part(m), kw(Keyword::Value), name_part(n)];
            assert forall|k: int| 0 <= k < t.len() implies safe_text(#[trigger] t[k]) by {
                if k == 0 {
                } else if k == 1 {
                } else if k == 2 {
                } else {
                }
            }
            lemma_safe_parts_concat(owner_parts(o), t);
        },
    }
}

#[verifier::spinoff_prover]
#[verifier::rlimit(60)]
proof fn lemma_parse_module_root_render(
    ps: Seq<Seq<char>>,
    at: int,
    owner: OwnerView,
    r: RootView,
    ss: Seq<StepView>,
)
    requires
        root_ok(r),
        0 <= at,
        r is Module || r is Type || r is Value,
        match r {
            RootView::Module(o, _) => o == owner,
            RootView::Type(o, _, _) => o == owner,
            RootView::Value(o, _, _) => o == owner,
            _ => true,
        },
        ps.skip(at) == root_parts(r).skip(owner_parts(owner).len() as int) + steps_parts(ss),
        at + root_parts(r).len() - owner_parts(owner).len() + steps_parts(ss).len() == ps.len(),
    ensures
        parse_module_root(ps, at, owner) == Ok::<(RootView, int), UriErrorView>(
            (r, at + root_parts(r).len() - owner_parts(owner).len()),
        ),
{
    let tail = ps.skip(at);
    let op = owner_parts(owner);
    lemma_keyword_roundtrip(Keyword::Module);
    lemma_keyword_roundtrip(Keyword::Type);
    lemma_keyword_roundtrip(Keyword::Value);
    if ss.len() > 0 {
        lemma_step_first_keyword(ss[0]);
        assert(steps_parts(ss)[0] == step_parts(ss[0])[0]);
    }
    assert forall|k: int| 0 <= k < tail.len() implies ps[at + k] == #[trigger] tail[k] by {}
    match r {
        RootView::Module(o, m) => {
            lemma_module_path_roundtrip(m);
            assert(root_parts(r) == op + seq![kw(Keyword::Module), path_part(m)]);
            assert(root_parts(r).skip(op.len() as int) =~= seq![kw(Keyword::Module), path_part(m)]);
            assert(tail[0] == kw(Keyword::Module));
            assert(tail[1] == path_part(m));
            if ss.len() > 0 {
                assert(tail[2] == steps_parts(ss)[0]);
            }
        },
        RootView::Type(o, m, n) => {
            lemma_module_path_roundtrip(m);
            lemma_name_part_roundtrip(n);
            assert(root_parts(r).skip(op.len() as int) =~= seq![
                kw(Keyword::Module),
                path_part(m),
                kw(Keyword::Type),
                name_part(n),
            ]);
            assert(tail[0] == kw(Keyword::Module));
            assert(tail[1] == path_part(m));
            assert(tail[2] == kw(Keyword::Type));
            assert(tail[3] == name_part(n));
        },
        RootView::Value(o, m, n) => {
            lemma_module_path_roundtrip(m);
            lemma_name_part_roundtrip(n);
            assert(root_parts(r).skip(op.len() as int) =~= seq![
                kw(Keyword::Module),
                path_part(m),
                kw(Keyword::Value),
                name_part(n),
            ]);
            assert(tail[0] == kw(Keyword::Module));
            assert(tail[1] == path_part(m));
            assert(tail[2] == kw(Keyword::Value));
            assert(tail[3] == name_part(n));
        },
        _ => {},
    }
}

#[verifier::spinoff_prover]
#[verifier::rlimit(60)]
proof fn lemma_parse_root_render(r: RootView, ss: Seq<StepView>)
    requires
        root_ok(r),
        r is Dependency ==> ss.len() == 0,
    ensures
        parse_root(root_parts(r) + steps_parts(ss)) == Ok::<(RootView, int), UriErrorView>(
            (r, root_parts(r).len() as int),
        ),
{
    let rp = root_parts(r);
    let ps = rp + steps_parts(ss);
    lemma_keyword_roundtrip(Keyword::Distribution);
    lemma_keyword_roundtrip(Keyword::Package);
    lemma_keyword_roundtrip(Keyword::EntryPoint);
    lemma_keyword_roundtrip(Keyword::Dependency);
    lemma_keyword_roundtrip(Keyword::Module);
    assert(ps[0] == rp[0]);
    match r {
        RootView::Distribution => {},
        RootView::Package => {},
        RootView::Dependency(p) => {
            lemma_module_path_roundtrip(p);
            assert(steps_parts(ss) =~= Seq::<Seq<char>>::empty());
            assert(ps[1] == rp[1]);
        },
        RootView::EntryPoint(n) => {
            lemma_component_roundtrip(n);
            lemma_encoded_safe(n);
            assert(ps[1] == rp[1]);
        },
        RootView::Module(o, m) => {
            match o {
                OwnerView::OwnPackage => {
                    assert(owner_parts(o).len() == 0);
                    assert(ps.skip(0) =~= rp.skip(0) + steps_parts(ss));
                    lemma_parse_module_root_render(ps, 0, o, r, ss);
                },
                OwnerView::Dependency(p) => {
                    lemma_module_path_roundtrip(p);
                    assert(ps[1] == rp[1]);
                    assert(ps.skip(2) =~= rp.skip(2) + steps_parts(ss));
                    lemma_parse_module_root_render(ps, 2, o, r, ss);
                },
            }
        },
        RootView::Type(o, m, n) => {
            match o {
                OwnerView::OwnPackage => {
                    assert(ps.skip(0) =~= rp.skip(0) + steps_parts(ss));
                    lemma_parse_module_root_render(ps, 0, o, r, ss);
                },
                OwnerView::Dependency(p) => {
                    lemma_module_path_roundtrip(p);
                    assert(ps[1] == rp[1]);
                    assert(ps.skip(2) =~= rp.skip(2) + steps_parts(ss));
                    lemma_parse_module_root_render(ps, 2, o, r, ss);
                },
            }
        },
        RootView::Value(o, m, n) => {
            match o {
                OwnerView::OwnPackage => {
                    assert(ps.skip(0) =~= rp.skip(0) + steps_parts(ss));
                    lemma_parse_module_root_render(ps, 0, o, r, ss);
                },
                OwnerView::Dependency(p) => {
                    lemma_module_path_roundtrip(p);
                    assert(ps[1] == rp[1]);
                    assert(ps.skip(2) =~= rp.skip(2) + steps_parts(ss));
                    lemma_parse_module_root_render(ps, 2, o, r, ss);
                },
            }
        },
    }
}


/// The characters a query parameter may hold.
pub open spec fn query_char(c: char) -> bool {
    crate::text::is_alnum(c) || c == '=' || c == '.' || c == ':'
}

pub open spec fn query_text(s: Seq<char>) -> bool {
    forall|i: int| 0 <= i < s.len() ==> query_char(#[trigger] s[i])
}

proof fn lemma_parse_format_render(t: ReleaseTriplet)
    ensures
        parse_format(release_spelling(t)) == Ok::<ReleaseTriplet, UriErrorView>(t),
        query_text(release_spelling(t)),
{
    let a = decimal(t.major as nat);
    let b = decimal(t.minor as nat);
    let c = decimal(t.patch as nat);
    crate::text::lemma_decimal_canonical(t.major as nat);
    crate::text::lemma_decimal_canonical(t.minor as nat);
    crate::text::lemma_decimal_canonical(t.patch as nat);
    let parts = seq![a, b, c];
    assert(parts.drop_last() =~= seq![a, b]);
    assert(seq![a, b].drop_last() =~= seq![a]);
    assert(join(seq![a], seq!['.']) == a);
    assert(join(seq![a, b], seq!['.']) == a + seq!['.'] + b);
    assert(join(parts, seq!['.']) =~= release_spelling(t));
    assert forall|i: int| 0 <= i < parts.len() implies !(#[trigger] parts[i]).contains('.') by {
        let p = parts[i];
        if p.contains('.') {
            let k = choose|k: int| 0 <= k < p.len() && p[k] == '.';
            assert(crate::text::is_digit(p[k]));
        }
    }
    crate::text::lemma_split_join(parts, '.');
    assert(split(release_spelling(t), '.') == parts);
    assert(crate::text::is_digit(a[0]) && crate::text::is_digit(b[0]) && crate::text::is_digit(c[0]));
    assert(u32_text(a) == Some(t.major));
    assert(u32_text(b) == Some(t.minor));
    assert(u32_text(c) == Some(t.patch));
    let r = release_spelling(t);
    assert forall|i: int| 0 <= i < r.len() implies query_char(#[trigger] r[i]) by {
        if i < a.len() {
            assert(r[i] == a[i]);
            assert(crate::text::is_digit(a[i]));
        } else if i == a.len() {
        } else if i < a.len() + 1 + b.len() {
            assert(r[i] == b[i - a.len() - 1]);
            assert(crate::text::is_digit(b[i - a.len() - 1]));
        } else if i == a.len() + 1 + b.len() {
        } else {
            assert(r[i] == c[i - a.len() - 2 - b.len()]);
            assert(crate::text::is_digit(c[i - a.len() - 2 - b.len()]));
        }
    }
}

proof fn lemma_parse_digest_render(d: Seq<char>)
    requires
        lowercase_digest(d),
    ensures
        parse_digest(digest_spelling(d)) == Ok::<Seq<char>, UriErrorView>(d),
        query_text(digest_spelling(d)),
{
    let s = digest_prefix() + d;
    assert(digest_prefix().len() == 7);
    assert(s.take(7) =~= digest_prefix());
    assert(s.skip(7) =~= d);
    assert forall|i: int| 0 <= i < s.len() implies query_char(#[trigger] s[i]) by {
        if i >= 7 {
            assert(s[i] == d[i - 7]);
            assert(is_lower_hex(d[i - 7]));
        }
    }
}

/// `key=value` with a key of letters and a value of query characters.
proof fn lemma_param_split(key: Seq<char>, value: Seq<char>)
    requires
        forall|i: int| 0 <= i < key.len() ==> is_lower(#[trigger] key[i]),
        query_text(value),
    ensures
        first_index(key + seq!['='] + value, '=') == Some(key.len() as int),
        (key + seq!['='] + value).take(key.len() as int) == key,
        (key + seq!['='] + value).skip(key.len() as int + 1) == value,
        query_text(key + seq!['='] + value),
{
    assert(!key.contains('=')) by {
        if key.contains('=') {
            let k = choose|k: int| 0 <= k < key.len() && key[k] == '=';
            assert(is_lower(key[k]));
        }
    }
    crate::text::lemma_first_index_concat(key, '=', value);
    let p = key + seq!['='] + value;
    assert forall|i: int| 0 <= i < p.len() implies query_char(#[trigger] p[i]) by {
        if i < key.len() {
            assert(p[i] == key[i]);
            assert(is_lower(key[i]));
        } else if i > key.len() {
            assert(p[i] == value[i - key.len() - 1]);
        }
    }
}

#[verifier::spinoff_prover]
#[verifier::rlimit(60)]
proof fn lemma_parse_query_render(f: ReleaseTriplet, rev: RevisionView, g: Option<Seq<char>>)
    requires
        rev matches RevisionView::Pinned(d) ==> lowercase_digest(d),
        g matches Some(x) ==> lowercase_digest(x),
    ensures
        parse_query(query_params(f, rev, g), 0, (None, RevisionView::Current, None)) == Ok::<
            QueryView,
            UriErrorView,
        >((Some(f), rev, g)),
        query_params(f, rev, g).len() >= 1,
        forall|k: int|
            0 <= k < query_params(f, rev, g).len() ==> query_text(
                #[trigger] query_params(f, rev, g)[k],
            ),
{
    let ps = query_params(f, rev, g);
    assert(format_key().len() == 6);
    assert(rev_key().len() == 3);
    assert(guard_key().len() == 5);
    lemma_parse_format_render(f);
    lemma_param_split(format_key(), release_spelling(f));
    let p0 = format_key() + seq!['='] + release_spelling(f);
    assert(ps[0] == p0);
    let q1 = (Some(f), RevisionView::Current, None::<Seq<char>>);
    assert(parse_query(ps, 0, (None, RevisionView::Current, None)) == parse_query(ps, 1, q1));
    let q2 = (Some(f), rev, None::<Seq<char>>);
    match rev {
        RevisionView::Current => {
            assert(parse_query(ps, 1, q1) == parse_query(ps, 1, q2));
        },
        RevisionView::Pinned(d) => {
            lemma_parse_digest_render(d);
            lemma_param_split(rev_key(), digest_spelling(d));
            assert(ps[1] == rev_key() + seq!['='] + digest_spelling(d));
            assert(parse_query(ps, 1, q1) == parse_query(ps, 2, q2));
        },
    }
    let n = if rev is Pinned {
        2int
    } else {
        1int
    };
    assert(parse_query(ps, 1, q1) == parse_query(ps, n, q2));
    match g {
        None => {
            assert(ps.len() == n);
            assert(parse_query(ps, n, q2) == Ok::<QueryView, UriErrorView>(q2));
        },
        Some(x) => {
            lemma_parse_digest_render(x);
            lemma_param_split(guard_key(), digest_spelling(x));
            assert(ps[n] == guard_key() + seq!['='] + digest_spelling(x));
            assert(ps.len() == n + 1);
            assert(parse_query(ps, n, q2) == parse_query(ps, n + 1, (Some(f), rev, g)));
        },
    }
    assert forall|k: int| 0 <= k < ps.len() implies query_text(#[trigger] ps[k]) by {
        if k == 0 {
        } else if k == 1 && rev is Pinned {
        } else {
        }
    }
}

proof fn lemma_parse_selector_render(a: SelectorView)
    requires
        match a {
            SelectorView::Package(p) => nonempty_path(p),
            SelectorView::Workspace(w) => lowercase_words(w),
        },
    ensures
        parse_selector(selector_spelling(a)) == Ok::<SelectorView, UriErrorView>(a),
        !selector_spelling(a).contains('#'),
        !selector_spelling(a).contains('?'),
{
    let s = selector_spelling(a);
    match a {
        SelectorView::Package(p) => {
            assert(package_prefix().len() == 4);
            assert(s.take(4) =~= package_prefix());
            assert(s.skip(4) =~= path_canonical(p));
            crate::naming::path::lemma_path_charset(p, '#');
            crate::naming::path::lemma_path_charset(p, '?');
            lemma_module_path_roundtrip(p);
            assert forall|i: int| 0 <= i < s.len() implies s[i] != '#' && s[i] != '?' by {
                if i >= 4 {
                    assert(s[i] == path_canonical(p)[i - 4]);
                }
            }
        },
        SelectorView::Workspace(w) => {
            assert(s[0] == 'w');
            assert(s.take(4)[0] == 'w');
            assert(package_prefix()[0] == 'p');
            assert(workspace_prefix().len() == 10);
            assert(s.take(10) =~= workspace_prefix());
            assert(s.skip(10) =~= w);
            assert forall|i: int| 0 <= i < s.len() implies s[i] != '#' && s[i] != '?' by {
                if i >= 10 {
                    assert(s[i] == w[i - 10]);
                }
            }
        },
    }
}

/// Every well-formed address reads back from its spelling:
/// `NodeUri::parse(&a.to_string())` is `Ok(a)`, and so `NodeUri::new` accepts it.
#[verifier::spinoff_prover]
#[verifier::rlimit(100)]
pub proof fn lemma_uri_roundtrip(a: UriView)
    requires
        uri_wf(a),
    ensures
        parse_uri(uri_spelling(a)) == Ok::<UriView, UriErrorView>(a),
{
    let sel = selector_spelling(a.artifact);
    let params = query_params(a.format, a.revision, a.guard);
    let q = join(params, seq!['&']);
    let ps = root_parts(a.root) + steps_parts(a.steps);
    let j = join(ps, seq!['/']);
    let u = uri_spelling(a);
    let before = sel + seq!['?'] + q;
    let fragment = seq!['/'] + j;
    let body = before + seq!['#'] + fragment;
    assert(authority().len() == 13);
    assert(u =~= authority() + body);
    assert(u.take(13) =~= authority());
    assert(u.skip(13) =~= body);
    // The selector and the query hold no `#` or `?`.
    lemma_parse_selector_render(a.artifact);
    lemma_parse_query_render(a.format, a.revision, a.guard);
    assert forall|k: int| 0 <= k < params.len() implies !(#[trigger] params[k]).contains('&')
        && !params[k].contains('#') by {
        let p = params[k];
        assert(query_text(p));
        if p.contains('&') {
            let i = choose|i: int| 0 <= i < p.len() && p[i] == '&';
            assert(query_char(p[i]));
        }
        if p.contains('#') {
            let i = choose|i: int| 0 <= i < p.len() && p[i] == '#';
            assert(query_char(p[i]));
        }
    }
    crate::text::lemma_join_excludes(params, seq!['&'], '#');
    assert(!before.contains('#')) by {
        if before.contains('#') {
            let i = choose|i: int| 0 <= i < before.len() && before[i] == '#';
            if i < sel.len() {
                assert(sel[i] == '#');
            } else if i > sel.len() {
                assert(q[i - sel.len() - 1] == '#');
            }
        }
    }
    crate::text::lemma_first_index_concat(before, '#', fragment);
    // The fragment's parts are URI-safe: no `/` and no `#` inside one.
    lemma_root_parts_safe(a.root);
    lemma_steps_parts_safe(a.steps);
    lemma_safe_parts_concat(root_parts(a.root), steps_parts(a.steps));
    assert forall|k: int| 0 <= k < ps.len() implies !(#[trigger] ps[k]).contains('/')
        && !ps[k].contains('#') by {
        let p = ps[k];
        assert(safe_text(p));
        if p.contains('/') {
            let i = choose|i: int| 0 <= i < p.len() && p[i] == '/';
            assert(uri_safe(p[i]));
        }
        if p.contains('#') {
            let i = choose|i: int| 0 <= i < p.len() && p[i] == '#';
            assert(uri_safe(p[i]));
        }
    }
    crate::text::lemma_join_excludes(ps, seq!['/'], '#');
    assert(!fragment.contains('#')) by {
        if fragment.contains('#') {
            let i = choose|i: int| 0 <= i < fragment.len() && fragment[i] == '#';
            assert(i > 0);
            assert(j[i - 1] == '#');
        }
    }
    // The `?` between the selector and the query.
    crate::text::lemma_first_index_concat(sel, '?', q);
    crate::text::lemma_split_join(params, '&');
    // The fragment splits back into its parts.
    assert(fragment[0] == '/');
    assert(fragment.skip(1) =~= j);
    crate::text::lemma_split_join(ps, '/');
    lemma_parse_root_render(a.root, a.steps);
    let consumed = root_parts(a.root).len() as int;
    assert(ps.skip(consumed) =~= steps_parts(a.steps));
    lemma_parse_steps_render(a.steps, ps, consumed);
    let found = UriView {
        artifact: a.artifact,
        format: a.format,
        root: a.root,
        steps: a.steps,
        revision: a.revision,
        guard: a.guard,
    };
    assert(found == a);
}

/// An address [`NodeUri::parse`] accepts is spelled exactly as the URI it was read from.
pub proof fn lemma_parsed_uri_spelling(u: Seq<char>)
    ensures
        parse_uri(u) matches Ok(a) ==> uri_spelling(a) == u,
{
}


/// An address [`NodeUri::parse`] accepts never has an unguarded positional step: an
/// address with an indexed step is pinned to a revision or carries a guard.
pub proof fn lemma_parsed_uri_is_guarded(u: Seq<char>)
    ensures
        parse_uri(u) matches Ok(a) ==> !(a.revision is Current && a.guard is None && has_positional(
            a.steps,
        )),
{
}

// ---------------------------------------------------------------------------
// Guards: fingerprints of the ordered children on a path
// ---------------------------------------------------------------------------

/// How the caller serializes each selected child before it is framed.
#[derive(Debug, Clone, Copy, PartialEq, Eq, Structural)]
pub enum FingerprintMode {
    /// The node's JSON with source coordinates and tool extensions stripped.
    Legacy,
    /// The node as V4.1 serializes it with its nonsemantic attributes omitted.
    V4_1,
}

/// The domain separator every fingerprint stream starts with.
pub open spec fn fingerprint_header() -> Seq<u8> {
    encode_utf8("morphir-node-fingerprint-draft.1\0"@)
}

/// The role a positional step is framed under, and its index.
pub open spec fn fingerprint_role(s: StepView) -> Option<(Seq<char>, usize)> {
    match s {
        StepView::ConstructorArgument(i) => Some(("constructor/argument"@, i)),
        StepView::ReferenceArgument(i) => Some(("reference/argument"@, i)),
        StepView::ListElement(i) => Some(("list/element"@, i)),
        StepView::TupleElement(i) => Some(("tuple/element"@, i)),
        StepView::PatternMatchCasePattern(i) => Some(("pattern-match/case/pattern"@, i)),
        StepView::PatternMatchCaseBody(i) => Some(("pattern-match/case/body"@, i)),
        StepView::PatternTupleElement(i) => Some(("tuple-pattern/element"@, i)),
        StepView::PatternConstructorArgument(i) => Some(("constructor-pattern/argument"@, i)),
        _ => None,
    }
}

/// The big-endian bytes of `n` in `width` bytes.
pub open spec fn be_bytes(n: nat, width: nat) -> Seq<u8>
    decreases width,
{
    if width == 0 {
        Seq::<u8>::empty()
    } else {
        be_bytes(n / 256, (width - 1) as nat).push((n % 256) as u8)
    }
}

/// One framed child: its role's length and bytes, its index, and its serialization's
/// length and bytes.
pub open spec fn fingerprint_frame(role: Seq<char>, index: usize, canonical: Seq<u8>) -> Seq<u8> {
    be_bytes(encode_utf8(role).len(), 4) + encode_utf8(role) + be_bytes(index as nat, 8) + be_bytes(
        canonical.len(),
        8,
    ) + canonical
}

/// Computes one guard from the ordered child selections on a semantic path.
///
/// Push once for each ordered step, from root to leaf, with the selected child's canonical
/// serialization; the guard is the SHA-256 of the framed stream.
#[derive(Debug, Clone)]
pub struct NodeFingerprintBuilder {
    stream: Vec<u8>,
    mode: FingerprintMode,
}

/// A builder's content: the framed stream so far, and its mode.
pub struct FingerprintView {
    pub stream: Seq<u8>,
    pub mode: FingerprintMode,
}

impl View for NodeFingerprintBuilder {
    type V = FingerprintView;

    closed spec fn view(&self) -> FingerprintView {
        FingerprintView { stream: self.stream@, mode: self.mode }
    }
}

fn push_be_bytes(out: &mut Vec<u8>, n: u64, width: usize)
    requires
        width <= 8,
    ensures
        final(out)@ == old(out)@ + be_bytes(n as nat, width as nat),
    decreases width,
{
    if width > 0 {
        push_be_bytes(out, n / 256, width - 1);
        out.push((n % 256) as u8);
        assert(be_bytes(n as nat, width as nat) == be_bytes((n / 256) as nat, (width - 1) as nat).push(
            (n % 256) as u8,
        ));
    } else {
        assert(old(out)@ + be_bytes(n as nat, 0) =~= old(out)@);
    }
}

impl NodeFingerprintBuilder {
    /// A builder for legacy nodes.
    pub fn new() -> (r: NodeFingerprintBuilder)
        ensures
            r@.stream == fingerprint_header(),
            r@.mode == FingerprintMode::Legacy,
    {
        let header = "morphir-node-fingerprint-draft.1\0";
        let mut stream: Vec<u8> = Vec::new();
        let bytes = header.as_bytes();
        let mut i: usize = 0;
        while i < bytes.len()
            invariant
                i <= bytes@.len(),
                bytes@ == encode_utf8(header@),
                stream@ == bytes@.take(i as int),
            decreases bytes.len() - i,
        {
            stream.push(bytes[i]);
            assert(stream@ =~= bytes@.take(i as int + 1));
            i = i + 1;
        }
        assert(bytes@.take(i as int) =~= bytes@);
        NodeFingerprintBuilder { stream, mode: FingerprintMode::Legacy }
    }

    /// A builder for V4.1 nodes.
    pub fn for_v4_1() -> (r: NodeFingerprintBuilder)
        ensures
            r@.stream == fingerprint_header(),
            r@.mode == FingerprintMode::V4_1,
    {
        let mut b = NodeFingerprintBuilder::new();
        b.mode = FingerprintMode::V4_1;
        b
    }

    /// How each child is to be serialized before it is pushed.
    pub fn mode(&self) -> (r: FingerprintMode)
        ensures
            r == self@.mode,
    {
        self.mode
    }

    /// Add one selected ordered child by its canonical serialization. Only a positional
    /// step selects an ordered child; any other step is refused and adds nothing.
    pub fn push_canonical(&mut self, step: &NodeStep, canonical: &[u8]) -> (r: Result<(), NodeUriError>)
        ensures
            final(self)@.mode == old(self)@.mode,
            match fingerprint_role(step@) {
                Some((role, index)) => r is Ok && final(self)@.stream == old(self)@.stream
                    + fingerprint_frame(role, index, canonical@),
                None => r matches Err(e) && e@ == UriErrorView::InvalidFingerprint(
                    "step is not positional"@,
                ) && final(self)@ == old(self)@,
            },
    {
        let (role, index): (&str, usize) = match step {
            NodeStep::ConstructorArgument(i) => ("constructor/argument", *i),
            NodeStep::ReferenceArgument(i) => ("reference/argument", *i),
            NodeStep::ListElement(i) => ("list/element", *i),
            NodeStep::TupleElement(i) => ("tuple/element", *i),
            NodeStep::PatternMatchCasePattern(i) => ("pattern-match/case/pattern", *i),
            NodeStep::PatternMatchCaseBody(i) => ("pattern-match/case/body", *i),
            NodeStep::PatternTupleElement(i) => ("tuple-pattern/element", *i),
            NodeStep::PatternConstructorArgument(i) => ("constructor-pattern/argument", *i),
            _ => {
                return Err(NodeUriError::InvalidFingerprint("step is not positional".to_owned()));
            },
        };
        let role_bytes = role.as_bytes();
        let ghost before = self.stream@;
        push_be_bytes(&mut self.stream, role_bytes.len() as u64, 4);
        let mut i: usize = 0;
        let ghost mid = self.stream@;
        while i < role_bytes.len()
            invariant
                i <= role_bytes@.len(),
                self.stream@ == mid + role_bytes@.take(i as int),
                self.mode == old(self)@.mode,
            decreases role_bytes.len() - i,
        {
            self.stream.push(role_bytes[i]);
            assert(self.stream@ =~= mid + role_bytes@.take(i as int + 1));
            i = i + 1;
        }
        assert(role_bytes@.take(i as int) =~= role_bytes@);
        push_be_bytes(&mut self.stream, index as u64, 8);
        push_be_bytes(&mut self.stream, canonical.len() as u64, 8);
        let ghost mid2 = self.stream@;
        let mut j: usize = 0;
        while j < canonical.len()
            invariant
                j <= canonical@.len(),
                self.stream@ == mid2 + canonical@.take(j as int),
                self.mode == old(self)@.mode,
            decreases canonical.len() - j,
        {
            self.stream.push(canonical[j]);
            assert(self.stream@ =~= mid2 + canonical@.take(j as int + 1));
            j = j + 1;
        }
        assert(canonical@.take(j as int) =~= canonical@);
        assert(self.stream@ =~= before + fingerprint_frame(role@, index, canonical@));
        Ok(())
    }

    /// Add one selected ordered child and its typed semantic subtree, given as the JSON the
    /// node serializes to: a legacy builder strips its nonsemantic attributes first, and the
    /// child is framed by its canonical bytes. Any step but a positional one is refused.
    pub fn push(&mut self, step: &NodeStep, child: &JsonValue) -> (r: Result<(), NodeUriError>)
        ensures
            final(self)@.mode == old(self)@.mode,
            match fingerprint_role(step@) {
                Some((role, index)) => r is Ok && final(self)@.stream == old(self)@.stream
                    + fingerprint_frame(
                    role,
                    index,
                    canonical_json(
                        if old(self)@.mode == FingerprintMode::Legacy {
                            strip_view(child@)
                        } else {
                            child@
                        },
                    ),
                ),
                None => r matches Err(e) && e@ == UriErrorView::InvalidFingerprint(
                    "step is not positional"@,
                ) && final(self)@ == old(self)@,
            },
    {
        if !step.is_positional() {
            return self.push_canonical(step, &[]);
        }
        let mut canonical: Vec<u8> = Vec::new();
        if self.mode == FingerprintMode::Legacy {
            let stripped = strip_nonsemantic(child);
            write_canonical_json(&stripped, &mut canonical);
        } else {
            write_canonical_json(child, &mut canonical);
        }
        assert(canonical@ =~= Seq::<u8>::empty() + canonical@);
        self.push_canonical(step, canonical.as_slice())
    }

    /// Finish and return the lowercase SHA-256 token used in `guard=`.
    pub fn finish(self) -> (r: Sha256Digest)
        ensures
            r@ == hex_of(sha256_digest(self@.stream)),
    {
        Sha256Digest::from_bytes(self.stream.as_slice())
    }
}

impl Default for NodeFingerprintBuilder {
    fn default() -> (r: NodeFingerprintBuilder)
        ensures
            r@.stream == fingerprint_header(),
            r@.mode == FingerprintMode::Legacy,
    {
        NodeFingerprintBuilder::new()
    }
}

} // verus!
