//! The bounded authored metadata context grammar: how a scope's bindings are built from
//! authored definitions and imports, and how an authored key expands to the semantic
//! declaration address it names.
//!
//! The bindings of a scope are kept in key order, the order a sorted map of `String` keys
//! walks them in (byte order of the UTF-8 spelling, which is code point order); where a
//! rule reports the first offending key, it is the first in that order.

use crate::json::{push_member, JsonValue, JsonView};
use crate::node_address::{authority, has_prefix, parse_uri, NodeUri, RootView, UriView};
use crate::text::{
    chars_of, decimal, decimal_of, is_white_space, push_chars, push_str_chars, str_eq, string_of, white_space,
};
use vstd::prelude::*;

verus! {

// ---------------------------------------------------------------------------
// Coercions and errors
// ---------------------------------------------------------------------------

/// Object interpretation requested by an authored term definition.
#[derive(Debug, Clone, Copy, PartialEq, Eq, Structural)]
pub enum Coercion {
    /// Ordinary literal data, including URI-looking strings.
    Plain,
    /// A string containing a canonical node address.
    NodeId,
    /// One opaque structured data value whose datatype comes from the schema closure.
    Json,
}

impl Default for Coercion {
    fn default() -> (r: Coercion)
        ensures
            r == Coercion::Plain,
    {
        Coercion::Plain
    }
}

/// A context grammar, resource, or expansion error.
#[derive(Debug, Clone, PartialEq, Eq)]
pub enum ContextError {
    /// The authored shape is outside the bounded context grammar.
    InvalidForm,
    /// A JSON-LD keyword is outside the accepted subset.
    UnsupportedKeyword(String),
    /// Two imports assign different meanings to the same term.
    TermCollision(String),
    /// Two imports assign different default vocabularies.
    VocabCollision,
    /// A narrower scope changed a protected inherited definition.
    ProtectedTermRedefinition(String),
    /// One resource appeared twice in a transitive import closure.
    DuplicateImport(String),
    /// An import recurs into an active resource.
    ImportCycle(String),
    /// The finite context import depth budget was exceeded.
    ImportDepthExceeded(usize),
    /// A local reference leaves the supplied root.
    PathEscape,
    /// The caller did not supply this resource.
    ResourceUnavailable(String),
    /// An explicit nonlocal resource has not been trusted by the caller.
    ResourceUntrusted(String),
    /// The bytes do not match a content-addressed reference.
    DigestMismatch(String),
    /// HTTP and other remote schemes are not context references.
    RemoteForbidden(String),
    /// A digest-addressed context cannot resolve a local child.
    RelativeImportWithoutBase,
    /// A target is not a canonical semantic node address.
    InvalidTarget(String),
    /// No binding, prefix, or default vocabulary names the key.
    UnboundKey(String),
    /// A node-link value is not a canonical node URI string.
    InvalidNodeLink,
    /// The schema closure did not supply the `@json` datatype.
    MissingJsonDatatype,
    /// A non-JSON fact object needs a recognized expanded value or node form.
    InvalidFactObject,
    /// A supplied context file is malformed or has the wrong envelope.
    InvalidResource(String),
}

/// An error's content as plain values.
pub enum ContextErrorView {
    InvalidForm,
    UnsupportedKeyword(Seq<char>),
    TermCollision(Seq<char>),
    VocabCollision,
    ProtectedTermRedefinition(Seq<char>),
    DuplicateImport(Seq<char>),
    ImportCycle(Seq<char>),
    ImportDepthExceeded(usize),
    PathEscape,
    ResourceUnavailable(Seq<char>),
    ResourceUntrusted(Seq<char>),
    DigestMismatch(Seq<char>),
    RemoteForbidden(Seq<char>),
    RelativeImportWithoutBase,
    InvalidTarget(Seq<char>),
    UnboundKey(Seq<char>),
    InvalidNodeLink,
    MissingJsonDatatype,
    InvalidFactObject,
    InvalidResource(Seq<char>),
}

impl View for ContextError {
    type V = ContextErrorView;

    open spec fn view(&self) -> ContextErrorView {
        match self {
            ContextError::InvalidForm => ContextErrorView::InvalidForm,
            ContextError::UnsupportedKeyword(k) => ContextErrorView::UnsupportedKeyword(k@),
            ContextError::TermCollision(k) => ContextErrorView::TermCollision(k@),
            ContextError::VocabCollision => ContextErrorView::VocabCollision,
            ContextError::ProtectedTermRedefinition(k) => ContextErrorView::ProtectedTermRedefinition(
                k@,
            ),
            ContextError::DuplicateImport(k) => ContextErrorView::DuplicateImport(k@),
            ContextError::ImportCycle(k) => ContextErrorView::ImportCycle(k@),
            ContextError::ImportDepthExceeded(n) => ContextErrorView::ImportDepthExceeded(*n),
            ContextError::PathEscape => ContextErrorView::PathEscape,
            ContextError::ResourceUnavailable(k) => ContextErrorView::ResourceUnavailable(k@),
            ContextError::ResourceUntrusted(k) => ContextErrorView::ResourceUntrusted(k@),
            ContextError::DigestMismatch(k) => ContextErrorView::DigestMismatch(k@),
            ContextError::RemoteForbidden(k) => ContextErrorView::RemoteForbidden(k@),
            ContextError::RelativeImportWithoutBase => ContextErrorView::RelativeImportWithoutBase,
            ContextError::InvalidTarget(k) => ContextErrorView::InvalidTarget(k@),
            ContextError::UnboundKey(k) => ContextErrorView::UnboundKey(k@),
            ContextError::InvalidNodeLink => ContextErrorView::InvalidNodeLink,
            ContextError::MissingJsonDatatype => ContextErrorView::MissingJsonDatatype,
            ContextError::InvalidFactObject => ContextErrorView::InvalidFactObject,
            ContextError::InvalidResource(k) => ContextErrorView::InvalidResource(k@),
        }
    }
}

/// The message a context error carries.
pub open spec fn context_error_message(e: ContextErrorView) -> Seq<char> {
    match e {
        ContextErrorView::InvalidForm => "invalid context form"@,
        ContextErrorView::UnsupportedKeyword(k) => "unsupported context keyword: "@ + k,
        ContextErrorView::TermCollision(k) => "context term collision: "@ + k,
        ContextErrorView::VocabCollision => "context vocabulary collision"@,
        ContextErrorView::ProtectedTermRedefinition(k) => "protected term redefinition: "@ + k,
        ContextErrorView::DuplicateImport(k) => "duplicate context import: "@ + k,
        ContextErrorView::ImportCycle(k) => "context import cycle: "@ + k,
        ContextErrorView::ImportDepthExceeded(n) => "context import depth exceeds "@ + decimal(
            n as nat,
        ),
        ContextErrorView::PathEscape => "context path escapes the supplied root"@,
        ContextErrorView::ResourceUnavailable(k) => "context resource unavailable: "@ + k,
        ContextErrorView::ResourceUntrusted(k) => "context resource untrusted: "@ + k,
        ContextErrorView::DigestMismatch(k) => "context digest mismatch: "@ + k,
        ContextErrorView::RemoteForbidden(k) => "remote context forbidden: "@ + k,
        ContextErrorView::RelativeImportWithoutBase => "relative import without a file base"@,
        ContextErrorView::InvalidTarget(k) => "invalid context target: "@ + k,
        ContextErrorView::UnboundKey(k) => "unbound context key: "@ + k,
        ContextErrorView::InvalidNodeLink => "invalid node-link value"@,
        ContextErrorView::MissingJsonDatatype => "@json coercion requires a declared datatype"@,
        ContextErrorView::InvalidFactObject =>
            "fact object must be @value or @id; structured data requires @json"@,
        ContextErrorView::InvalidResource(k) => "invalid context resource: "@ + k,
    }
}

fn prefixed(prefix: &str, tail: &str) -> (r: String)
    ensures
        r@ == prefix@ + tail@,
{
    let mut out: Vec<char> = Vec::new();
    push_str_chars(&mut out, prefix);
    push_str_chars(&mut out, tail);
    string_of(out.as_slice())
}

impl ContextError {
    /// The error's message.
    pub fn message(&self) -> (r: String)
        ensures
            r@ == context_error_message(self@),
    {
        match self {
            ContextError::InvalidForm => String::from_str("invalid context form"),
            ContextError::UnsupportedKeyword(k) => prefixed(
                "unsupported context keyword: ",
                k.as_str(),
            ),
            ContextError::TermCollision(k) => prefixed("context term collision: ", k.as_str()),
            ContextError::VocabCollision => String::from_str("context vocabulary collision"),
            ContextError::ProtectedTermRedefinition(k) => prefixed(
                "protected term redefinition: ",
                k.as_str(),
            ),
            ContextError::DuplicateImport(k) => prefixed("duplicate context import: ", k.as_str()),
            ContextError::ImportCycle(k) => prefixed("context import cycle: ", k.as_str()),
            ContextError::ImportDepthExceeded(n) => {
                let mut out: Vec<char> = Vec::new();
                push_str_chars(&mut out, "context import depth exceeds ");
                let digits = decimal_of(*n as u64);
                push_chars(&mut out, digits.as_slice());
                string_of(out.as_slice())
            },
            ContextError::PathEscape => String::from_str("context path escapes the supplied root"),
            ContextError::ResourceUnavailable(k) => prefixed(
                "context resource unavailable: ",
                k.as_str(),
            ),
            ContextError::ResourceUntrusted(k) => prefixed(
                "context resource untrusted: ",
                k.as_str(),
            ),
            ContextError::DigestMismatch(k) => prefixed("context digest mismatch: ", k.as_str()),
            ContextError::RemoteForbidden(k) => prefixed("remote context forbidden: ", k.as_str()),
            ContextError::RelativeImportWithoutBase => String::from_str(
                "relative import without a file base",
            ),
            ContextError::InvalidTarget(k) => prefixed("invalid context target: ", k.as_str()),
            ContextError::UnboundKey(k) => prefixed("unbound context key: ", k.as_str()),
            ContextError::InvalidNodeLink => String::from_str("invalid node-link value"),
            ContextError::MissingJsonDatatype => String::from_str(
                "@json coercion requires a declared datatype",
            ),
            ContextError::InvalidFactObject => String::from_str(
                "fact object must be @value or @id; structured data requires @json",
            ),
            ContextError::InvalidResource(k) => prefixed("invalid context resource: ", k.as_str()),
        }
    }
}

// ---------------------------------------------------------------------------
// Key order
// ---------------------------------------------------------------------------

/// Whether `a` sorts before `b`: code point by code point, a proper prefix first.
pub open spec fn key_lt(a: Seq<char>, b: Seq<char>) -> bool
    decreases a.len(),
{
    if a.len() == 0 {
        b.len() > 0
    } else if b.len() == 0 {
        false
    } else if a[0] != b[0] {
        (a[0] as int) < (b[0] as int)
    } else {
        key_lt(a.drop_first(), b.drop_first())
    }
}

proof fn lemma_key_lt_irreflexive(a: Seq<char>)
    ensures
        !key_lt(a, a),
    decreases a.len(),
{
    if a.len() > 0 {
        lemma_key_lt_irreflexive(a.drop_first());
    }
}

proof fn lemma_key_lt_pair(a: Seq<char>, b: Seq<char>)
    ensures
        key_lt(a, b) ==> !key_lt(b, a),
        a != b ==> key_lt(a, b) || key_lt(b, a),
    decreases a.len(),
{
    if a.len() > 0 && b.len() > 0 {
        lemma_key_lt_pair(a.drop_first(), b.drop_first());
        if a[0] == b[0] && a.drop_first() == b.drop_first() {
            assert(a =~= seq![a[0]] + a.drop_first());
            assert(b =~= seq![b[0]] + b.drop_first());
        }
    } else if a.len() == 0 && b.len() == 0 {
        assert(a =~= b);
    }
}

proof fn lemma_key_lt_transitive(a: Seq<char>, b: Seq<char>, c: Seq<char>)
    ensures
        key_lt(a, b) && key_lt(b, c) ==> key_lt(a, c),
    decreases a.len(),
{
    if a.len() > 0 && b.len() > 0 && c.len() > 0 {
        lemma_key_lt_transitive(a.drop_first(), b.drop_first(), c.drop_first());
    }
}

/// The key order is a strict total order.
pub proof fn lemma_key_order(a: Seq<char>, b: Seq<char>, c: Seq<char>)
    ensures
        !key_lt(a, a),
        key_lt(a, b) ==> !key_lt(b, a),
        a != b ==> key_lt(a, b) || key_lt(b, a),
        key_lt(a, b) && key_lt(b, c) ==> key_lt(a, c),
{
    lemma_key_lt_irreflexive(a);
    lemma_key_lt_pair(a, b);
    lemma_key_lt_transitive(a, b, c);
}

/// Whether `a` sorts before `b`.
pub fn key_less(a: &str, b: &str) -> (r: bool)
    ensures
        r == key_lt(a@, b@),
{
    let x = chars_of(a);
    let y = chars_of(b);
    let mut i: usize = 0;
    assert(a@.skip(0) =~= a@);
    assert(b@.skip(0) =~= b@);
    while i < x.len() && i < y.len()
        invariant
            i <= x@.len(),
            i <= y@.len(),
            x@ == a@,
            y@ == b@,
            key_lt(a@, b@) == key_lt(a@.skip(i as int), b@.skip(i as int)),
        decreases x.len() - i,
    {
        assert(a@.skip(i as int).drop_first() =~= a@.skip(i as int + 1));
        assert(b@.skip(i as int).drop_first() =~= b@.skip(i as int + 1));
        if x[i] != y[i] {
            return x[i] < y[i];
        }
        i = i + 1;
    }
    i < y.len()
}

// ---------------------------------------------------------------------------
// Bindings
// ---------------------------------------------------------------------------

/// One term's meaning: its expanded target, whether it is a prefix, its coercion, and
/// whether narrower scopes may redefine it.
#[derive(Debug, Clone, PartialEq, Eq)]
pub struct Binding {
    target: String,
    prefix: bool,
    coercion: Coercion,
    protected: bool,
}

/// A binding's content as plain values.
pub struct BindingView {
    pub target: Seq<char>,
    pub prefix: bool,
    pub coercion: Coercion,
    pub protected: bool,
}

impl View for Binding {
    type V = BindingView;

    closed spec fn view(&self) -> BindingView {
        BindingView {
            target: self.target@,
            prefix: self.prefix,
            coercion: self.coercion,
            protected: self.protected,
        }
    }
}

impl Binding {
    /// The expanded target.
    pub fn target(&self) -> (r: &str)
        ensures
            r@ == self@.target,
    {
        self.target.as_str()
    }

    /// Whether the term is a prefix.
    pub fn is_prefix(&self) -> (r: bool)
        ensures
            r == self@.prefix,
    {
        self.prefix
    }

    /// The object coercion the term requests.
    pub fn coercion(&self) -> (r: Coercion)
        ensures
            r == self@.coercion,
    {
        self.coercion
    }

    /// Whether narrower scopes may not redefine the term.
    pub fn is_protected(&self) -> (r: bool)
        ensures
            r == self@.protected,
    {
        self.protected
    }

    fn same_as(&self, other: &Binding) -> (r: bool)
        ensures
            r == (self@ == other@),
    {
        str_eq(self.target.as_str(), other.target.as_str()) && self.prefix == other.prefix
            && self.coercion == other.coercion && self.protected == other.protected
    }

    fn duplicate(&self) -> (r: Binding)
        ensures
            r@ == self@,
    {
        Binding {
            target: self.target.clone(),
            prefix: self.prefix,
            coercion: self.coercion,
            protected: self.protected,
        }
    }
}

/// The binding of `key` in `terms`, if any.
pub open spec fn lookup(terms: Seq<(Seq<char>, BindingView)>, key: Seq<char>) -> Option<
    BindingView,
>
    decreases terms.len(),
{
    if terms.len() == 0 {
        None
    } else if terms[0].0 == key {
        Some(terms[0].1)
    } else {
        lookup(terms.drop_first(), key)
    }
}

/// `terms` with `key` bound to `b`: an existing binding is replaced in place, a new one
/// is placed before the first larger key.
pub open spec fn put(terms: Seq<(Seq<char>, BindingView)>, key: Seq<char>, b: BindingView) -> Seq<
    (Seq<char>, BindingView),
>
    decreases terms.len(),
{
    if terms.len() == 0 {
        seq![(key, b)]
    } else if terms[0].0 == key {
        seq![(key, b)] + terms.drop_first()
    } else if key_lt(key, terms[0].0) {
        seq![(key, b)] + terms
    } else {
        seq![terms[0]] + put(terms.drop_first(), key, b)
    }
}

/// Whether the keys of `terms` strictly increase.
pub open spec fn sorted_keys(terms: Seq<(Seq<char>, BindingView)>) -> bool {
    forall|i: int, j: int| 0 <= i < j < terms.len() ==> key_lt(#[trigger] terms[i].0, #[trigger] terms[j].0)
}

/// What `put` does to lookups, and that it keeps keys sorted.
pub proof fn lemma_put(terms: Seq<(Seq<char>, BindingView)>, key: Seq<char>, b: BindingView, other: Seq<char>)
    ensures
        lookup(put(terms, key, b), other) == if other == key {
            Some(b)
        } else {
            lookup(terms, other)
        },
        sorted_keys(terms) ==> sorted_keys(put(terms, key, b)),
        forall|i: int| 0 <= i < put(terms, key, b).len() ==> #[trigger] put(terms, key, b)[i].0 == key || exists|j: int| 0 <= j < terms.len() && terms[j].0 == put(terms, key, b)[i].0,
    decreases terms.len(),
{
    let p = put(terms, key, b);
    if terms.len() == 0 {
        assert(lookup(p, other) == lookup(p.drop_first(), other) || p[0].0 == other);
    } else if terms[0].0 == key {
        assert(p.drop_first() =~= terms.drop_first());
        assert forall|i: int| 0 <= i < p.len() implies #[trigger] p[i].0 == key || exists|j: int| 0 <= j < terms.len() && terms[j].0 == p[i].0 by {
            if i > 0 {
                assert(p[i] == terms[i]);
            }
        }
        if sorted_keys(terms) {
            assert forall|i: int, j: int| 0 <= i < j < p.len() implies key_lt(#[trigger] p[i].0, #[trigger] p[j].0) by {
                assert(p[j] == terms[j]);
                if i > 0 {
                    assert(p[i] == terms[i]);
                }
            }
        }
    } else if key_lt(key, terms[0].0) {
        assert(p.drop_first() =~= terms);
        assert forall|i: int| 0 <= i < p.len() implies #[trigger] p[i].0 == key || exists|j: int| 0 <= j < terms.len() && terms[j].0 == p[i].0 by {
            if i > 0 {
                assert(p[i] == terms[i - 1]);
            }
        }
        if sorted_keys(terms) {
            assert forall|i: int, j: int| 0 <= i < j < p.len() implies key_lt(#[trigger] p[i].0, #[trigger] p[j].0) by {
                assert(p[j] == terms[j - 1]);
                if i > 0 {
                    assert(p[i] == terms[i - 1]);
                } else if j > 1 {
                    lemma_key_order(key, terms[0].0, terms[j - 1].0);
                }
            }
        }
        if other != key {
            assert(lookup(p, other) == lookup(terms, other));
        }
    } else {
        let rest = put(terms.drop_first(), key, b);
        lemma_put(terms.drop_first(), key, b, other);
        assert(p.drop_first() =~= rest);
        assert forall|i: int| 0 <= i < p.len() implies #[trigger] p[i].0 == key || exists|j: int| 0 <= j < terms.len() && terms[j].0 == p[i].0 by {
            if i == 0 {
                assert(terms[0].0 == p[0].0);
            } else {
                assert(p[i] == rest[i - 1]);
                if rest[i - 1].0 != key {
                    let j = choose|j: int| 0 <= j < terms.drop_first().len() && terms.drop_first()[j].0 == rest[i - 1].0;
                    assert(terms[j + 1].0 == p[i].0);
                }
            }
        }
        if sorted_keys(terms) {
            assert(sorted_keys(terms.drop_first())) by {
                assert forall|i: int, j: int| 0 <= i < j < terms.drop_first().len() implies key_lt(#[trigger] terms.drop_first()[i].0, #[trigger] terms.drop_first()[j].0) by {
                    assert(terms.drop_first()[i] == terms[i + 1]);
                    assert(terms.drop_first()[j] == terms[j + 1]);
                }
            }
            lemma_key_order(key, terms[0].0, key);
            assert(key_lt(terms[0].0, key));
            assert forall|i: int, j: int| 0 <= i < j < p.len() implies key_lt(#[trigger] p[i].0, #[trigger] p[j].0) by {
                assert(p[j] == rest[j - 1]);
                if i > 0 {
                    assert(p[i] == rest[i - 1]);
                } else {
                    if rest[j - 1].0 != key {
                        let k = choose|k: int| 0 <= k < terms.drop_first().len() && terms.drop_first()[k].0 == rest[j - 1].0;
                        assert(terms[k + 1].0 == rest[j - 1].0);
                    }
                }
            }
        }
    }
}

/// In terms with sorted keys, each key looks up its own binding, and only keys present
/// look anything up.
pub proof fn lemma_lookup_sorted(terms: Seq<(Seq<char>, BindingView)>, key: Seq<char>)
    requires
        sorted_keys(terms),
    ensures
        forall|i: int| 0 <= i < terms.len() ==> lookup(terms, #[trigger] terms[i].0) == Some(terms[i].1),
        lookup(terms, key) is Some ==> exists|i: int| 0 <= i < terms.len() && terms[i].0 == key && lookup(terms, key) == Some(terms[i].1),
    decreases terms.len(),
{
    if terms.len() > 0 {
        let rest = terms.drop_first();
        assert(sorted_keys(rest)) by {
            assert forall|i: int, j: int| 0 <= i < j < rest.len() implies key_lt(#[trigger] rest[i].0, #[trigger] rest[j].0) by {
                assert(rest[i] == terms[i + 1] && rest[j] == terms[j + 1]);
            }
        }
        lemma_lookup_sorted(rest, key);
        assert forall|i: int| 0 <= i < terms.len() implies lookup(terms, #[trigger] terms[i].0) == Some(terms[i].1) by {
            if i > 0 {
                assert(key_lt(terms[0].0, terms[i].0));
                lemma_key_order(terms[0].0, terms[i].0, terms[0].0);
                assert(rest[i - 1] == terms[i]);
            }
        }
        if lookup(terms, key) is Some && terms[0].0 != key {
            let i = choose|i: int| 0 <= i < rest.len() && rest[i].0 == key && lookup(rest, key) == Some(rest[i].1);
            assert(terms[i + 1] == rest[i]);
        }
    }
}

/// Looking a key up in the first `j + 1` of sorted terms finds the `j`-th binding for its
/// own key, and otherwise what the first `j` find.
pub proof fn lemma_lookup_take_step(terms: Seq<(Seq<char>, BindingView)>, j: int, key: Seq<char>)
    requires
        sorted_keys(terms),
        0 <= j < terms.len(),
    ensures
        lookup(terms.take(j + 1), key) == if key == terms[j].0 {
            Some(terms[j].1)
        } else {
            lookup(terms.take(j), key)
        },
        lookup(terms.take(j), terms[j].0) is None,
    decreases j,
{
    if j == 0 {
        assert(terms.take(1).drop_first() =~= Seq::<(Seq<char>, BindingView)>::empty());
        assert(terms.take(0) =~= Seq::<(Seq<char>, BindingView)>::empty());
    } else {
        let rest = terms.drop_first();
        assert(sorted_keys(rest)) by {
            assert forall|p: int, q: int| 0 <= p < q < rest.len() implies key_lt(#[trigger] rest[p].0, #[trigger] rest[q].0) by {
                assert(rest[p] == terms[p + 1] && rest[q] == terms[q + 1]);
            }
        }
        lemma_lookup_take_step(rest, j - 1, key);
        assert(terms.take(j + 1).drop_first() =~= rest.take(j));
        assert(terms.take(j).drop_first() =~= rest.take(j - 1));
        assert(rest[j - 1] == terms[j]);
        assert(key_lt(terms[0].0, terms[j].0));
        lemma_key_order(terms[0].0, terms[j].0, terms[0].0);
    }
}

/// Terms with sorted keys are determined by what they look up.
pub proof fn lemma_sorted_lookup_eq(s: Seq<(Seq<char>, BindingView)>, t: Seq<(Seq<char>, BindingView)>)
    requires
        sorted_keys(s),
        sorted_keys(t),
        forall|k: Seq<char>| lookup(s, k) == lookup(t, k),
    ensures
        s == t,
    decreases s.len() + t.len(),
{
    if s.len() == 0 && t.len() == 0 {
        assert(s =~= t);
    } else if s.len() == 0 {
        lemma_lookup_sorted(t, t[0].0);
        assert(lookup(s, t[0].0) is None);
    } else if t.len() == 0 {
        lemma_lookup_sorted(s, s[0].0);
        assert(lookup(t, s[0].0) is None);
    } else {
        lemma_lookup_sorted(s, t[0].0);
        lemma_lookup_sorted(t, s[0].0);
        assert(lookup(s, s[0].0) == Some(s[0].1));
        assert(lookup(t, t[0].0) == Some(t[0].1));
        let j = choose|j: int| 0 <= j < t.len() && t[j].0 == s[0].0 && lookup(t, s[0].0) == Some(t[j].1);
        let i = choose|i: int| 0 <= i < s.len() && s[i].0 == t[0].0 && lookup(s, t[0].0) == Some(s[i].1);
        if j > 0 {
            assert(key_lt(t[0].0, t[j].0));
            if i > 0 {
                assert(key_lt(s[0].0, s[i].0));
            }
            lemma_key_order(t[0].0, s[0].0, t[0].0);
            assert(false);
        }
        assert(s[0] == t[0]);
        let s1 = s.drop_first();
        let t1 = t.drop_first();
        assert(sorted_keys(s1)) by {
            assert forall|p: int, q: int| 0 <= p < q < s1.len() implies key_lt(#[trigger] s1[p].0, #[trigger] s1[q].0) by {
                assert(s1[p] == s[p + 1] && s1[q] == s[q + 1]);
            }
        }
        assert(sorted_keys(t1)) by {
            assert forall|p: int, q: int| 0 <= p < q < t1.len() implies key_lt(#[trigger] t1[p].0, #[trigger] t1[q].0) by {
                assert(t1[p] == t[p + 1] && t1[q] == t[q + 1]);
            }
        }
        assert forall|k: Seq<char>| lookup(s1, k) == lookup(t1, k) by {
            if k == s[0].0 {
                lemma_lookup_sorted(s1, k);
                lemma_lookup_sorted(t1, k);
                if lookup(s1, k) is Some {
                    let p = choose|p: int| 0 <= p < s1.len() && s1[p].0 == k && lookup(s1, k) == Some(s1[p].1);
                    assert(key_lt(s[0].0, s[p + 1].0));
                    lemma_key_order(k, k, k);
                }
                if lookup(t1, k) is Some {
                    let p = choose|p: int| 0 <= p < t1.len() && t1[p].0 == k && lookup(t1, k) == Some(t1[p].1);
                    assert(key_lt(t[0].0, t[p + 1].0));
                    lemma_key_order(k, k, k);
                }
            } else {
                assert(lookup(s, k) == lookup(s1, k));
                assert(lookup(t, k) == lookup(t1, k));
            }
        }
        lemma_sorted_lookup_eq(s1, t1);
        assert(s =~= seq![s[0]] + s1);
        assert(t =~= seq![t[0]] + t1);
    }
}

/// Where `put` places `key`: after every smaller key, replacing an equal one.
proof fn lemma_put_at(terms: Seq<(Seq<char>, BindingView)>, key: Seq<char>, b: BindingView, i: int)
    requires
        0 <= i <= terms.len(),
        forall|j: int| 0 <= j < i ==> key_lt(#[trigger] terms[j].0, key),
        i < terms.len() ==> !key_lt(terms[i].0, key),
    ensures
        put(terms, key, b) == if i < terms.len() && terms[i].0 == key {
            terms.take(i) + seq![(key, b)] + terms.skip(i + 1)
        } else {
            terms.take(i) + seq![(key, b)] + terms.skip(i)
        },
    decreases i,
{
    if i == 0 {
        if terms.len() > 0 {
            if terms[0].0 != key {
                lemma_key_order(terms[0].0, key, key);
            }
            assert(terms.skip(1) =~= terms.drop_first());
        }
        assert(terms.skip(0) =~= terms);
        assert(terms.take(0) + seq![(key, b)] + terms.skip(0) =~= seq![(key, b)] + terms);
        if terms.len() > 0 && terms[0].0 == key {
            assert(terms.take(0) + seq![(key, b)] + terms.skip(1) =~= seq![(key, b)] + terms.drop_first());
        }
    } else {
        let rest = terms.drop_first();
        assert forall|j: int| 0 <= j < i - 1 implies key_lt(#[trigger] rest[j].0, key) by {
            assert(rest[j] == terms[j + 1]);
        }
        lemma_put_at(rest, key, b, i - 1);
        assert(key_lt(terms[0].0, key));
        lemma_key_order(terms[0].0, key, key);
        assert(terms[0].0 != key);
        assert(!key_lt(key, terms[0].0));
        if i < terms.len() && terms[i].0 == key {
            assert(seq![terms[0]] + (rest.take(i - 1) + seq![(key, b)] + rest.skip(i)) =~= terms.take(i)
                + seq![(key, b)] + terms.skip(i + 1));
        } else {
            assert(seq![terms[0]] + (rest.take(i - 1) + seq![(key, b)] + rest.skip(i - 1)) =~= terms.take(
                i,
            ) + seq![(key, b)] + terms.skip(i));
        }
    }
}

// ---------------------------------------------------------------------------
// Effective contexts
// ---------------------------------------------------------------------------

/// Effective bindings at one metadata container scope, in key order.
#[derive(Debug, Clone, PartialEq, Eq)]
pub struct EffectiveContext {
    terms: Vec<(String, Binding)>,
    vocab: Option<String>,
}

/// A scope's content as plain values.
pub struct ContextView {
    pub terms: Seq<(Seq<char>, BindingView)>,
    pub vocab: Option<Seq<char>>,
}

pub open spec fn term_views(v: Seq<(String, Binding)>) -> Seq<(Seq<char>, BindingView)> {
    v.map_values(|e: (String, Binding)| (e.0@, e.1@))
}

pub open spec fn opt_view(o: Option<String>) -> Option<Seq<char>> {
    match o {
        Some(s) => Some(s@),
        None => None,
    }
}

/// The scope with no terms and no default vocabulary.
pub open spec fn empty_context_view() -> ContextView {
    ContextView { terms: Seq::<(Seq<char>, BindingView)>::empty(), vocab: None }
}

impl View for EffectiveContext {
    type V = ContextView;

    closed spec fn view(&self) -> ContextView {
        ContextView { terms: term_views(self.terms@), vocab: opt_view(self.vocab) }
    }
}

impl Default for EffectiveContext {
    fn default() -> (r: EffectiveContext)
        ensures
            r@.terms == Seq::<(Seq<char>, BindingView)>::empty(),
            r@.vocab is None,
    {
        EffectiveContext::new()
    }
}

impl EffectiveContext {
    /// The empty scope: no terms and no default vocabulary.
    pub fn new() -> (r: EffectiveContext)
        ensures
            r@.terms == Seq::<(Seq<char>, BindingView)>::empty(),
            r@.vocab is None,
    {
        let r = EffectiveContext { terms: Vec::new(), vocab: None };
        assert(r@.terms =~= Seq::<(Seq<char>, BindingView)>::empty());
        r
    }

    /// A scope with the same bindings and default vocabulary.
    pub fn duplicate(&self) -> (r: EffectiveContext)
        ensures
            r@ == self@,
    {
        let mut terms: Vec<(String, Binding)> = Vec::new();
        let mut i: usize = 0;
        while i < self.terms.len()
            invariant
                i <= self.terms@.len(),
                term_views(terms@) == term_views(self.terms@).take(i as int),
            decreases self.terms.len() - i,
        {
            let ghost before = terms@;
            terms.push((self.terms[i].0.clone(), self.terms[i].1.duplicate()));
            assert(term_views(terms@) =~= term_views(self.terms@).take(i as int + 1)) by {
                assert(term_views(terms@) =~= term_views(before).push((self.terms@[i as int].0@, self.terms@[i as int].1@)));
            }
            i = i + 1;
        }
        assert(term_views(self.terms@).take(i as int) =~= term_views(self.terms@));
        let vocab = match &self.vocab {
            Some(v) => Some(v.clone()),
            None => None,
        };
        EffectiveContext { terms, vocab }
    }

    /// The bound terms and their bindings, in key order.
    pub fn terms(&self) -> (r: &[(String, Binding)])
        ensures
            term_views(r@) == self@.terms,
    {
        self.terms.as_slice()
    }

    /// The active default declaration stem, if one was supplied.
    pub fn vocab(&self) -> (r: Option<&str>)
        ensures
            match r {
                Some(v) => self@.vocab == Some(v@),
                None => self@.vocab is None,
            },
    {
        match &self.vocab {
            Some(v) => Some(v.as_str()),
            None => None,
        }
    }

    /// The binding of `key`, if any.
    pub fn binding(&self, key: &str) -> (r: Option<&Binding>)
        ensures
            match r {
                Some(b) => lookup(self@.terms, key@) == Some(b@),
                None => lookup(self@.terms, key@) is None,
            },
    {
        let ghost all = self@.terms;
        let mut i: usize = 0;
        assert(all.skip(0) =~= all);
        while i < self.terms.len()
            invariant
                i <= self.terms.len(),
                all == term_views(self.terms@),
                lookup(all, key@) == lookup(all.skip(i as int), key@),
            decreases self.terms.len() - i,
        {
            assert(all.skip(i as int).drop_first() =~= all.skip(i as int + 1));
            assert(all.skip(i as int)[0] == all[i as int]);
            if str_eq(self.terms[i].0.as_str(), key) {
                return Some(&self.terms[i].1);
            }
            i = i + 1;
        }
        None
    }

    /// Bind `key` to `b`, replacing an existing binding of it.
    fn bind(&mut self, key: String, b: Binding)
        ensures
            final(self)@.terms == put(old(self)@.terms, key@, b@),
            final(self)@.vocab == old(self)@.vocab,
            sorted_keys(old(self)@.terms) ==> sorted_keys(final(self)@.terms),
    {
        proof {
            lemma_put(old(self)@.terms, key@, b@, key@);
        }
        let ghost all = old(self)@.terms;
        let mut i: usize = 0;
        while i < self.terms.len() && key_less(self.terms[i].0.as_str(), key.as_str())
            invariant
                i <= self.terms.len(),
                self@ == old(self)@,
                all == term_views(self.terms@),
                forall|j: int| 0 <= j < i ==> key_lt(#[trigger] all[j].0, key@),
            decreases self.terms.len() - i,
        {
            i = i + 1;
        }
        proof {
            lemma_put_at(all, key@, b@, i as int);
        }
        let ghost kb = (key@, b@);
        if i < self.terms.len() && str_eq(self.terms[i].0.as_str(), key.as_str()) {
            self.terms.set(i, (key, b));
            assert(term_views(self.terms@) =~= all.take(i as int) + seq![kb] + all.skip(
                i as int + 1,
            ));
        } else {
            self.terms.insert(i, (key, b));
            assert(term_views(self.terms@) =~= all.take(i as int) + seq![kb] + all.skip(i as int));
        }
    }
}

// ---------------------------------------------------------------------------
// Expansion targets
// ---------------------------------------------------------------------------

/// The address `raw` names as a context target: a canonical address of a type or value
/// declaration, with no steps.
pub open spec fn context_target(raw: Seq<char>) -> Option<UriView> {
    match parse_uri(raw) {
        Ok(u) => if (u.root is Type || u.root is Value) && u.steps.len() == 0 {
            Some(u)
        } else {
            None
        },
        Err(_) => None,
    }
}

/// The declaration address `raw` names, or `InvalidTarget(raw)`.
pub fn parse_context_uri(raw: &str) -> (r: Result<NodeUri, ContextError>)
    ensures
        match r {
            Ok(u) => context_target(raw@) == Some(u@),
            Err(e) => context_target(raw@) is None && e@ == ContextErrorView::InvalidTarget(raw@),
        },
{
    let uri = match NodeUri::parse(raw) {
        Ok(u) => u,
        Err(_) => {
            return Err(ContextError::InvalidTarget(raw.to_owned()));
        },
    };
    let declaration = match uri.root() {
        crate::node_address::NodeRoot::Type { .. } => true,
        crate::node_address::NodeRoot::Value { .. } => true,
        _ => false,
    };
    if !declaration || uri.steps().len() != 0 {
        return Err(ContextError::InvalidTarget(raw.to_owned()));
    }
    Ok(uri)
}

/// Whether `stem` is a declaration stem: it ends with `/`, and a name appended to it
/// makes a context target.
pub open spec fn valid_stem(stem: Seq<char>) -> bool {
    stem.len() > 0 && stem.last() == '/' && context_target(stem + "sample"@) is Some
}

/// Accepts a declaration stem, or refuses it as `InvalidTarget(stem)`.
pub fn validate_stem(stem: &str) -> (r: Result<(), ContextError>)
    ensures
        match r {
            Ok(_) => valid_stem(stem@),
            Err(e) => !valid_stem(stem@) && e@ == ContextErrorView::InvalidTarget(stem@),
        },
{
    let cs = chars_of(stem);
    if cs.len() == 0 || cs[cs.len() - 1] != '/' {
        return Err(ContextError::InvalidTarget(stem.to_owned()));
    }
    let sample = prefixed(stem, "sample");
    match parse_context_uri(sample.as_str()) {
        Ok(_) => Ok(()),
        Err(_) => Err(ContextError::InvalidTarget(stem.to_owned())),
    }
}

/// The index of the first `c` in `s`, if any.
pub open spec fn first_at(s: Seq<char>, c: char) -> Option<int> {
    crate::text::first_index(s, c)
}

/// A compact key expanded to a semantic URI and its object coercion.
#[derive(Debug, Clone, PartialEq, Eq)]
pub struct ExpandedKey {
    uri: NodeUri,
    coercion: Coercion,
}

impl ExpandedKey {
    pub closed spec fn uri_view(&self) -> UriView {
        self.uri@
    }

    pub closed spec fn coercion_of(&self) -> Coercion {
        self.coercion
    }

    /// The canonical semantic declaration address.
    pub fn uri(&self) -> (r: &NodeUri)
        ensures
            r@ == self.uri_view(),
    {
        &self.uri
    }

    /// The authored value coercion, without schema validation.
    pub fn coercion(&self) -> (r: Coercion)
        ensures
            r == self.coercion_of(),
    {
        self.coercion
    }
}

/// What expanding `raw` with `coercion` gives: its context target, or `InvalidTarget(raw)`.
pub open spec fn expansion(raw: Seq<char>, coercion: Coercion) -> Result<(UriView, Coercion), ContextErrorView> {
    match context_target(raw) {
        Some(u) => Ok((u, coercion)),
        None => Err(ContextErrorView::InvalidTarget(raw)),
    }
}

/// What an authored key expands to in scope `c`: an exact term first, then a full node
/// address, then a `prefix:suffix` compact key over a prefix term, then the default
/// vocabulary; otherwise the key is unbound.
pub open spec fn expand_key_spec(c: ContextView, key: Seq<char>) -> Result<(UriView, Coercion), ContextErrorView> {
    match lookup(c.terms, key) {
        Some(b) => expansion(b.target, b.coercion),
        None => if has_prefix(key, authority()) {
            expansion(key, Coercion::Plain)
        } else {
            let prefix_binding = match first_at(key, ':') {
                Some(i) => match lookup(c.terms, key.take(i)) {
                    Some(b) => if b.prefix {
                        Some((b, key.skip(i + 1)))
                    } else {
                        None
                    },
                    None => None,
                },
                None => None,
            };
            match prefix_binding {
                Some((b, suffix)) => expansion(b.target + suffix, Coercion::Plain),
                None => match c.vocab {
                    Some(v) => expansion(v + key, Coercion::Plain),
                    None => Err(ContextErrorView::UnboundKey(key)),
                },
            }
        },
    }
}

/// Every key expands to the address of a type or value declaration with no steps, or is
/// refused.
pub proof fn lemma_expansion_is_a_declaration(c: ContextView, key: Seq<char>)
    ensures
        expand_key_spec(c, key) matches Ok((u, _)) ==> (u.root is Type || u.root is Value) && u.steps.len() == 0,
{
}

/// Expanding an unbound key that is neither a full address, a compact key over a prefix term,
/// nor covered by a default vocabulary is refused as unbound.
pub proof fn lemma_unbound_key(c: ContextView, key: Seq<char>)
    requires
        lookup(c.terms, key) is None,
        !has_prefix(key, authority()),
        first_at(key, ':') is None,
        c.vocab is None,
    ensures
        expand_key_spec(c, key) == Err::<(UriView, Coercion), ContextErrorView>(ContextErrorView::UnboundKey(key)),
{
}

fn expand_target(raw: &str, coercion: Coercion) -> (r: Result<ExpandedKey, ContextError>)
    ensures
        match r {
            Ok(k) => expansion(raw@, coercion) == Ok::<(UriView, Coercion), ContextErrorView>(
                (k.uri_view(), k.coercion_of()),
            ),
            Err(e) => expansion(raw@, coercion) == Err::<(UriView, Coercion), ContextErrorView>(
                e@,
            ),
        },
{
    match parse_context_uri(raw) {
        Ok(uri) => Ok(ExpandedKey { uri, coercion }),
        Err(e) => Err(e),
    }
}

impl EffectiveContext {
    #[verifier::rlimit(40)]
    #[verifier::spinoff_prover]
    /// Expand an authored key. An exact alias precedes a full address, a prefix and
    /// `@vocab`.
    pub fn expand_key(&self, key: &str) -> (r: Result<ExpandedKey, ContextError>)
        ensures
            match r {
                Ok(k) => expand_key_spec(self@, key@) == Ok::<(UriView, Coercion), ContextErrorView>(
                    (k.uri_view(), k.coercion_of()),
                ),
                Err(e) => expand_key_spec(self@, key@) == Err::<(UriView, Coercion), ContextErrorView>(
                    e@,
                ),
            },
    {
        match self.binding(key) {
            Some(b) => {
                return expand_target(b.target.as_str(), b.coercion);
            },
            None => {},
        }
        let cs = chars_of(key);
        let auth = vec!['m', 'o', 'r', 'p', 'h', 'i', 'r', ':', '/', '/', 'i', 'r', '/'];
        assert(auth@ =~= authority());
        if crate::text::starts_with(cs.as_slice(), auth.as_slice()) {
            return expand_target(key, Coercion::Plain);
        }
        match crate::text::find_char(cs.as_slice(), ':') {
            Some(i) => {
                proof {
                    crate::text::lemma_first_index(key@, ':');
                }
                let head = string_of(crate::text::subrange(cs.as_slice(), 0, i).as_slice());
                assert(head@ =~= key@.take(i as int));
                match self.binding(head.as_str()) {
                    Some(b) => {
                        if b.prefix {
                            let tail = crate::text::subrange(cs.as_slice(), i + 1, cs.len());
                            assert(tail@ =~= key@.skip(i as int + 1));
                            let mut target: Vec<char> = Vec::new();
                            push_str_chars(&mut target, b.target.as_str());
                            push_chars(&mut target, tail.as_slice());
                            let raw = string_of(target.as_slice());
                            return expand_target(raw.as_str(), Coercion::Plain);
                        }
                    },
                    None => {},
                }
            },
            None => {},
        }
        match &self.vocab {
            Some(v) => {
                let raw = prefixed(v.as_str(), key);
                expand_target(raw.as_str(), Coercion::Plain)
            },
            None => Err(ContextError::UnboundKey(key.to_owned())),
        }
    }
}

// ---------------------------------------------------------------------------
// Authored term definitions
// ---------------------------------------------------------------------------

/// What a term definition object holds under one member, as far as the grammar reads it.
#[derive(Debug, Clone, PartialEq, Eq)]
pub enum MemberValue {
    Str(String),
    Bool(bool),
    /// Any other JSON value.
    Other,
}

/// An authored term definition, as far as the grammar reads it: a target string, an object
/// of members in the order the authored object lists them, or anything else.
#[derive(Debug, Clone, PartialEq, Eq)]
pub enum TermValue {
    Str(String),
    Object(Vec<(String, MemberValue)>),
    Other,
}

pub enum MemberView {
    Str(Seq<char>),
    Bool(bool),
    Other,
}

pub enum TermView {
    Str(Seq<char>),
    Object(Seq<(Seq<char>, MemberView)>),
    Other,
}

impl View for MemberValue {
    type V = MemberView;

    open spec fn view(&self) -> MemberView {
        match self {
            MemberValue::Str(s) => MemberView::Str(s@),
            MemberValue::Bool(b) => MemberView::Bool(*b),
            MemberValue::Other => MemberView::Other,
        }
    }
}

pub open spec fn member_views(v: Seq<(String, MemberValue)>) -> Seq<(Seq<char>, MemberView)> {
    v.map_values(|e: (String, MemberValue)| (e.0@, e.1@))
}

impl View for TermValue {
    type V = TermView;

    open spec fn view(&self) -> TermView {
        match self {
            TermValue::Str(s) => TermView::Str(s@),
            TermValue::Object(ms) => TermView::Object(member_views(ms@)),
            TermValue::Other => TermView::Other,
        }
    }
}

/// The value of the first member named `name`.
pub open spec fn member_get(ms: Seq<(Seq<char>, MemberView)>, name: Seq<char>) -> Option<MemberView>
    decreases ms.len(),
{
    if ms.len() == 0 {
        None
    } else if ms[0].0 == name {
        Some(ms[0].1)
    } else {
        member_get(ms.drop_first(), name)
    }
}

/// The members a term definition object may have.
pub open spec fn definition_member(name: Seq<char>) -> bool {
    name == "@id"@ || name == "@type"@ || name == "@prefix"@ || name == "@protected"@
}

/// The first member a term definition object may not have.
pub open spec fn first_unknown_member(ms: Seq<(Seq<char>, MemberView)>) -> Option<Seq<char>>
    decreases ms.len(),
{
    if ms.len() == 0 {
        None
    } else if !definition_member(ms[0].0) {
        Some(ms[0].0)
    } else {
        first_unknown_member(ms.drop_first())
    }
}

/// A term definition read from its authored form.
pub struct Definition {
    pub raw: Seq<char>,
    pub prefix: bool,
    pub coercion: Coercion,
    pub protected: bool,
}

/// An optional boolean member: absent is `false`, a non-boolean is refused.
pub open spec fn flag_member(m: Option<MemberView>) -> Option<bool> {
    match m {
        None => Some(false),
        Some(MemberView::Bool(b)) => Some(b),
        Some(_) => None,
    }
}

/// The coercion an optional `@type` member requests, or `None` when it requests none
/// the grammar knows.
pub open spec fn coercion_member(m: Option<MemberView>) -> Option<Coercion> {
    match m {
        None => Some(Coercion::Plain),
        Some(MemberView::Str(t)) => if t == "@id"@ {
            Some(Coercion::NodeId)
        } else if t == "@json"@ {
            Some(Coercion::Json)
        } else {
            None
        },
        Some(_) => None,
    }
}

/// How an authored term definition reads: a string is a plain target; an object has only
/// the four definition members, a string `@id`, boolean `@prefix` (never `false`) and
/// `@protected`, and an `@type` of `@id` or `@json`.
pub open spec fn decode_term(v: TermView) -> Result<Definition, ContextErrorView> {
    match v {
        TermView::Str(raw) => Ok(
            Definition { raw, prefix: false, coercion: Coercion::Plain, protected: false },
        ),
        TermView::Object(ms) => match first_unknown_member(ms) {
            Some(k) => if k.len() > 0 && k[0] == '@' {
                Err(ContextErrorView::UnsupportedKeyword(k))
            } else {
                Err(ContextErrorView::InvalidForm)
            },
            None => match member_get(ms, "@id"@) {
                Some(MemberView::Str(raw)) => match flag_member(member_get(ms, "@prefix"@)) {
                    None => Err(ContextErrorView::InvalidForm),
                    Some(prefix) => if member_get(ms, "@prefix"@) is Some && !prefix {
                        Err(ContextErrorView::InvalidForm)
                    } else {
                        match flag_member(member_get(ms, "@protected"@)) {
                            None => Err(ContextErrorView::InvalidForm),
                            Some(protected) => match coercion_member(member_get(ms, "@type"@)) {
                                None => Err(ContextErrorView::InvalidForm),
                                Some(coercion) => Ok(Definition { raw, prefix, coercion, protected }),
                            },
                        }
                    },
                },
                _ => Err(ContextErrorView::InvalidForm),
            },
        },
        TermView::Other => Err(ContextErrorView::InvalidForm),
    }
}

/// Whether `key` may be defined as a term: nonempty, without white space, and, if it holds
/// a `:`, a nonempty prefix before its first `:` and a nonempty suffix with no other `:`.
pub open spec fn valid_term_key(key: Seq<char>) -> bool {
    &&& key.len() > 0
    &&& forall|i: int| 0 <= i < key.len() ==> !is_white_space(#[trigger] key[i])
    &&& match first_at(key, ':') {
        Some(i) => i > 0 && i + 1 < key.len() && !key.skip(i + 1).contains(':'),
        None => true,
    }
}

/// The target a definition's raw target expands to in scope `c`: a full node address as
/// it is, or `prefix:tail` over a prefix term.
pub open spec fn expanded_target(c: ContextView, raw: Seq<char>) -> Result<Seq<char>, ContextErrorView> {
    if has_prefix(raw, authority()) {
        Ok(raw)
    } else {
        match first_at(raw, ':') {
            Some(i) => match lookup(c.terms, raw.take(i)) {
                Some(b) => if b.prefix {
                    Ok(b.target + raw.skip(i + 1))
                } else {
                    Err(ContextErrorView::InvalidTarget(raw))
                },
                None => Err(ContextErrorView::InvalidTarget(raw)),
            },
            None => Err(ContextErrorView::InvalidTarget(raw)),
        }
    }
}

/// What installing the authored definition `v` of `key` makes of scope `c`.
pub open spec fn install_spec(c: ContextView, key: Seq<char>, v: TermView) -> Result<ContextView, ContextErrorView> {
    if !valid_term_key(key) {
        Err(ContextErrorView::InvalidForm)
    } else {
        match decode_term(v) {
            Err(e) => Err(e),
            Ok(d) => match expanded_target(c, d.raw) {
                Err(e) => Err(e),
                Ok(t) => if d.prefix && d.coercion != Coercion::Plain {
                    Err(ContextErrorView::InvalidForm)
                } else if d.prefix && !valid_stem(t) {
                    Err(ContextErrorView::InvalidTarget(t))
                } else if !d.prefix && context_target(t) is None {
                    Err(ContextErrorView::InvalidTarget(t))
                } else {
                    let b = BindingView {
                        target: t,
                        prefix: d.prefix,
                        coercion: d.coercion,
                        protected: d.protected,
                    };
                    match lookup(c.terms, key) {
                        Some(old) => if old.protected && old != b {
                            Err(ContextErrorView::ProtectedTermRedefinition(key))
                        } else {
                            Ok(ContextView { terms: put(c.terms, key, b), vocab: c.vocab })
                        },
                        None => Ok(ContextView { terms: put(c.terms, key, b), vocab: c.vocab }),
                    }
                },
            },
        }
    }
}

fn member_named<'a>(ms: &'a Vec<(String, MemberValue)>, name: &str) -> (r: Option<&'a MemberValue>)
    ensures
        match r {
            Some(m) => member_get(member_views(ms@), name@) == Some(m@),
            None => member_get(member_views(ms@), name@) is None,
        },
{
    let ghost all = member_views(ms@);
    let mut i: usize = 0;
    assert(all.skip(0) =~= all);
    while i < ms.len()
        invariant
            i <= ms.len(),
            all == member_views(ms@),
            member_get(all, name@) == member_get(all.skip(i as int), name@),
        decreases ms.len() - i,
    {
        assert(all.skip(i as int).drop_first() =~= all.skip(i as int + 1));
        assert(all.skip(i as int)[0] == all[i as int]);
        if str_eq(ms[i].0.as_str(), name) {
            return Some(&ms[i].1);
        }
        i = i + 1;
    }
    None
}

fn is_definition_member(name: &str) -> (r: bool)
    ensures
        r == definition_member(name@),
{
    str_eq(name, "@id") || str_eq(name, "@type") || str_eq(name, "@prefix") || str_eq(
        name,
        "@protected",
    )
}

fn unknown_member(ms: &Vec<(String, MemberValue)>) -> (r: Option<&String>)
    ensures
        match r {
            Some(k) => first_unknown_member(member_views(ms@)) == Some(k@),
            None => first_unknown_member(member_views(ms@)) is None,
        },
{
    let ghost all = member_views(ms@);
    let mut i: usize = 0;
    assert(all.skip(0) =~= all);
    while i < ms.len()
        invariant
            i <= ms.len(),
            all == member_views(ms@),
            first_unknown_member(all) == first_unknown_member(all.skip(i as int)),
        decreases ms.len() - i,
    {
        assert(all.skip(i as int).drop_first() =~= all.skip(i as int + 1));
        assert(all.skip(i as int)[0] == all[i as int]);
        if !is_definition_member(ms[i].0.as_str()) {
            return Some(&ms[i].0);
        }
        i = i + 1;
    }
    None
}

fn flag_of(m: Option<&MemberValue>) -> (r: Option<bool>)
    ensures
        r == flag_member(
            match m {
                Some(x) => Some(x@),
                None => None,
            },
        ),
{
    match m {
        None => Some(false),
        Some(MemberValue::Bool(b)) => Some(*b),
        Some(_) => None,
    }
}

fn coercion_of_member(m: Option<&MemberValue>) -> (r: Option<Coercion>)
    ensures
        r == coercion_member(
            match m {
                Some(x) => Some(x@),
                None => None,
            },
        ),
{
    match m {
        None => Some(Coercion::Plain),
        Some(MemberValue::Str(t)) => {
            if str_eq(t.as_str(), "@id") {
                Some(Coercion::NodeId)
            } else if str_eq(t.as_str(), "@json") {
                Some(Coercion::Json)
            } else {
                None
            }
        },
        Some(_) => None,
    }
}

fn starts_with_at(s: &str) -> (r: bool)
    ensures
        r == (s@.len() > 0 && s@[0] == '@'),
{
    let cs = chars_of(s);
    cs.len() > 0 && cs[0] == '@'
}

/// Reads an authored term definition.
fn decode_definition(v: &TermValue) -> (r: Result<(String, bool, Coercion, bool), ContextError>)
    ensures
        match r {
            Ok((raw, prefix, coercion, protected)) => decode_term(v@) matches Ok(d) && d.raw
                == raw@ && d.prefix == prefix && d.coercion == coercion && d.protected
                == protected,
            Err(e) => decode_term(v@) == Err::<Definition, ContextErrorView>(e@),
        },
{
    match v {
        TermValue::Str(raw) => Ok((raw.clone(), false, Coercion::Plain, false)),
        TermValue::Object(ms) => {
            match unknown_member(ms) {
                Some(k) => {
                    if starts_with_at(k.as_str()) {
                        return Err(ContextError::UnsupportedKeyword(k.clone()));
                    } else {
                        return Err(ContextError::InvalidForm);
                    }
                },
                None => {},
            }
            let raw = match member_named(ms, "@id") {
                Some(MemberValue::Str(raw)) => raw.clone(),
                _ => {
                    return Err(ContextError::InvalidForm);
                },
            };
            let prefix_member = member_named(ms, "@prefix");
            let prefix = match flag_of(prefix_member) {
                Some(p) => p,
                None => {
                    return Err(ContextError::InvalidForm);
                },
            };
            if prefix_member.is_some() && !prefix {
                return Err(ContextError::InvalidForm);
            }
            let protected = match flag_of(member_named(ms, "@protected")) {
                Some(p) => p,
                None => {
                    return Err(ContextError::InvalidForm);
                },
            };
            let coercion = match coercion_of_member(member_named(ms, "@type")) {
                Some(c) => c,
                None => {
                    return Err(ContextError::InvalidForm);
                },
            };
            Ok((raw, prefix, coercion, protected))
        },
        TermValue::Other => Err(ContextError::InvalidForm),
    }
}

/// Whether `key` may be defined as a term.
pub fn is_valid_term_key(key: &str) -> (r: bool)
    ensures
        r == valid_term_key(key@),
{
    let cs = chars_of(key);
    if cs.len() == 0 {
        return false;
    }
    let mut i: usize = 0;
    while i < cs.len()
        invariant
            i <= cs.len(),
            cs@ == key@,
            forall|j: int| 0 <= j < i ==> !is_white_space(#[trigger] key@[j]),
        decreases cs.len() - i,
    {
        if white_space(cs[i]) {
            return false;
        }
        i = i + 1;
    }
    match crate::text::find_char(cs.as_slice(), ':') {
        Some(p) => {
            proof {
                crate::text::lemma_first_index(key@, ':');
            }
            if p == 0 || p + 1 >= cs.len() {
                return false;
            }
            let suffix = crate::text::subrange(cs.as_slice(), p + 1, cs.len());
            assert(suffix@ =~= key@.skip(p as int + 1));
            !crate::text::contains_char(suffix.as_slice(), ':')
        },
        None => true,
    }
}

impl EffectiveContext {
    /// The target `raw` expands to in this scope.
    fn expand_target_text(&self, raw: &str) -> (r: Result<String, ContextError>)
        ensures
            match r {
                Ok(t) => expanded_target(self@, raw@) == Ok::<Seq<char>, ContextErrorView>(t@),
                Err(e) => expanded_target(self@, raw@) == Err::<Seq<char>, ContextErrorView>(e@),
            },
    {
        let cs = chars_of(raw);
        let auth = vec!['m', 'o', 'r', 'p', 'h', 'i', 'r', ':', '/', '/', 'i', 'r', '/'];
        assert(auth@ =~= authority());
        if crate::text::starts_with(cs.as_slice(), auth.as_slice()) {
            return Ok(raw.to_owned());
        }
        match crate::text::find_char(cs.as_slice(), ':') {
            Some(i) => {
                proof {
                    crate::text::lemma_first_index(raw@, ':');
                }
                assert(i < cs.len());
                let head = string_of(crate::text::subrange(cs.as_slice(), 0, i).as_slice());
                assert(head@ =~= raw@.take(i as int));
                match self.binding(head.as_str()) {
                    Some(b) => {
                        if b.prefix {
                            let tail = crate::text::subrange(cs.as_slice(), i + 1, cs.len());
                            assert(tail@ =~= raw@.skip(i as int + 1));
                            let mut target: Vec<char> = Vec::new();
                            push_str_chars(&mut target, b.target.as_str());
                            push_chars(&mut target, tail.as_slice());
                            Ok(string_of(target.as_slice()))
                        } else {
                            Err(ContextError::InvalidTarget(raw.to_owned()))
                        }
                    },
                    None => Err(ContextError::InvalidTarget(raw.to_owned())),
                }
            },
            None => Err(ContextError::InvalidTarget(raw.to_owned())),
        }
    }

    /// Install the authored definition `value` of `key` in this scope. A refused
    /// definition leaves the scope as it was.
    pub fn install_binding(&mut self, key: &str, value: &TermValue) -> (r: Result<(), ContextError>)
        ensures
            match r {
                Ok(_) => install_spec(old(self)@, key@, value@) == Ok::<ContextView, ContextErrorView>(
                    final(self)@,
                ),
                Err(e) => install_spec(old(self)@, key@, value@) == Err::<ContextView, ContextErrorView>(
                    e@,
                ) && final(self)@ == old(self)@,
            },
            sorted_keys(old(self)@.terms) ==> sorted_keys(final(self)@.terms),
    {
        if !is_valid_term_key(key) {
            return Err(ContextError::InvalidForm);
        }
        let (raw, prefix, coercion, protected) = match decode_definition(value) {
            Ok(d) => d,
            Err(e) => {
                return Err(e);
            },
        };
        let target = match self.expand_target_text(raw.as_str()) {
            Ok(t) => t,
            Err(e) => {
                return Err(e);
            },
        };
        if prefix {
            if coercion != Coercion::Plain {
                return Err(ContextError::InvalidForm);
            }
            match validate_stem(target.as_str()) {
                Ok(_) => {},
                Err(e) => {
                    return Err(e);
                },
            }
        } else {
            match parse_context_uri(target.as_str()) {
                Ok(_) => {},
                Err(e) => {
                    return Err(e);
                },
            }
        }
        let binding = Binding { target, prefix, coercion, protected };
        match self.binding(key) {
            Some(old) => {
                if old.protected && !old.same_as(&binding) {
                    return Err(ContextError::ProtectedTermRedefinition(key.to_owned()));
                }
            },
            None => {},
        }
        self.bind(key.to_owned(), binding);
        Ok(())
    }
}

// ---------------------------------------------------------------------------
// Inline definitions and imports
// ---------------------------------------------------------------------------

pub open spec fn is_keyword_key(k: Seq<char>) -> bool {
    k.len() > 0 && k[0] == '@'
}

pub open spec fn inline_views(v: Seq<(String, TermValue)>) -> Seq<(Seq<char>, TermView)> {
    v.map_values(|e: (String, TermValue)| (e.0@, e.1@))
}

/// The first keyword other than `@vocab` among the keys of an inline context object.
pub open spec fn first_keyword(ms: Seq<(Seq<char>, TermView)>) -> Option<Seq<char>>
    decreases ms.len(),
{
    if ms.len() == 0 {
        None
    } else if is_keyword_key(ms[0].0) && ms[0].0 != "@vocab"@ {
        Some(ms[0].0)
    } else {
        first_keyword(ms.drop_first())
    }
}

/// The value of the first member named `name`.
pub open spec fn term_get(ms: Seq<(Seq<char>, TermView)>, name: Seq<char>) -> Option<TermView>
    decreases ms.len(),
{
    if ms.len() == 0 {
        None
    } else if ms[0].0 == name {
        Some(ms[0].1)
    } else {
        term_get(ms.drop_first(), name)
    }
}

/// Whether a definition declares a prefix: an object whose `@prefix` is `true`.
pub open spec fn declares_prefix(v: TermView) -> bool {
    v matches TermView::Object(ms) && member_get(ms, "@prefix"@) == Some(MemberView::Bool(true))
}

/// Installs, in order from `i`, the definitions that declare a prefix (or, when
/// `prefixes` is false, those that do not).
pub open spec fn install_from(
    c: ContextView,
    ms: Seq<(Seq<char>, TermView)>,
    prefixes: bool,
    i: int,
) -> Result<ContextView, ContextErrorView>
    decreases ms.len() - i,
{
    if i < 0 || i >= ms.len() {
        Ok(c)
    } else if !is_keyword_key(ms[i].0) && declares_prefix(ms[i].1) == prefixes {
        match install_spec(c, ms[i].0, ms[i].1) {
            Ok(next) => install_from(next, ms, prefixes, i + 1),
            Err(e) => Err(e),
        }
    } else {
        install_from(c, ms, prefixes, i + 1)
    }
}

/// What an inline context object makes of scope `c`: no keyword but `@vocab`; a string
/// `@vocab` that is a declaration stem becomes the default vocabulary; then the prefix
/// definitions are installed, so that other definitions can use a prefix declared later
/// in the object, then the rest.
pub open spec fn inline_spec(c: ContextView, ms: Seq<(Seq<char>, TermView)>) -> Result<ContextView, ContextErrorView> {
    match first_keyword(ms) {
        Some(k) => Err(ContextErrorView::UnsupportedKeyword(k)),
        None => {
            let with_vocab = match term_get(ms, "@vocab"@) {
                None => Ok(c),
                Some(TermView::Str(stem)) => if valid_stem(stem) {
                    Ok(ContextView { terms: c.terms, vocab: Some(stem) })
                } else {
                    Err(ContextErrorView::InvalidTarget(stem))
                },
                Some(_) => Err(ContextErrorView::InvalidForm),
            };
            match with_vocab {
                Err(e) => Err(e),
                Ok(c1) => match install_from(c1, ms, true, 0) {
                    Err(e) => Err(e),
                    Ok(c2) => install_from(c2, ms, false, 0),
                },
            }
        },
    }
}

fn first_keyword_of(members: &Vec<(String, TermValue)>) -> (r: Option<&String>)
    ensures
        match r {
            Some(k) => first_keyword(inline_views(members@)) == Some(k@),
            None => first_keyword(inline_views(members@)) is None,
        },
{
    let ghost all = inline_views(members@);
    let mut i: usize = 0;
    assert(all.skip(0) =~= all);
    while i < members.len()
        invariant
            i <= members.len(),
            all == inline_views(members@),
            first_keyword(all) == first_keyword(all.skip(i as int)),
        decreases members.len() - i,
    {
        assert(all.skip(i as int).drop_first() =~= all.skip(i as int + 1));
        assert(all.skip(i as int)[0] == all[i as int]);
        let k = &members[i].0;
        if starts_with_at(k.as_str()) && !str_eq(k.as_str(), "@vocab") {
            return Some(k);
        }
        i = i + 1;
    }
    None
}

fn term_named<'a>(members: &'a Vec<(String, TermValue)>, name: &str) -> (r: Option<&'a TermValue>)
    ensures
        match r {
            Some(v) => term_get(inline_views(members@), name@) == Some(v@),
            None => term_get(inline_views(members@), name@) is None,
        },
{
    let ghost all = inline_views(members@);
    let mut i: usize = 0;
    assert(all.skip(0) =~= all);
    while i < members.len()
        invariant
            i <= members.len(),
            all == inline_views(members@),
            term_get(all, name@) == term_get(all.skip(i as int), name@),
        decreases members.len() - i,
    {
        assert(all.skip(i as int).drop_first() =~= all.skip(i as int + 1));
        assert(all.skip(i as int)[0] == all[i as int]);
        if str_eq(members[i].0.as_str(), name) {
            return Some(&members[i].1);
        }
        i = i + 1;
    }
    None
}

fn is_prefix_definition(v: &TermValue) -> (r: bool)
    ensures
        r == declares_prefix(v@),
{
    match v {
        TermValue::Object(ms) => match member_named(ms, "@prefix") {
            Some(MemberValue::Bool(b)) => *b,
            _ => false,
        },
        _ => false,
    }
}

/// What merging the imported scope `imp` from position `i` on makes of the terms `t`: a
/// term two imports define differently collides.
pub open spec fn merge_from(
    t: Seq<(Seq<char>, BindingView)>,
    imp: Seq<(Seq<char>, BindingView)>,
    i: int,
) -> Result<Seq<(Seq<char>, BindingView)>, ContextErrorView>
    decreases imp.len() - i,
{
    if i < 0 || i >= imp.len() {
        Ok(t)
    } else {
        match lookup(t, imp[i].0) {
            Some(old) => if old != imp[i].1 {
                Err(ContextErrorView::TermCollision(imp[i].0))
            } else {
                merge_from(put(t, imp[i].0, imp[i].1), imp, i + 1)
            },
            None => merge_from(put(t, imp[i].0, imp[i].1), imp, i + 1),
        }
    }
}

/// What merging a sibling import `imp` into the imports gathered so far in `c` gives.
pub open spec fn merge_spec(c: ContextView, imp: ContextView) -> Result<ContextView, ContextErrorView> {
    match merge_from(c.terms, imp.terms, 0) {
        Err(e) => Err(e),
        Ok(t) => match imp.vocab {
            Some(v) => match c.vocab {
                Some(old) => if old != v {
                    Err(ContextErrorView::VocabCollision)
                } else {
                    Ok(ContextView { terms: t, vocab: Some(v) })
                },
                None => Ok(ContextView { terms: t, vocab: Some(v) }),
            },
            None => Ok(ContextView { terms: t, vocab: c.vocab }),
        },
    }
}

/// What applying the imported scope `imp` from position `i` on makes of the terms `t`: an
/// import may redefine a term unless the definition it replaces is protected.
pub open spec fn apply_from(
    t: Seq<(Seq<char>, BindingView)>,
    imp: Seq<(Seq<char>, BindingView)>,
    i: int,
) -> Result<Seq<(Seq<char>, BindingView)>, ContextErrorView>
    decreases imp.len() - i,
{
    if i < 0 || i >= imp.len() {
        Ok(t)
    } else {
        match lookup(t, imp[i].0) {
            Some(old) => if old.protected && old != imp[i].1 {
                Err(ContextErrorView::ProtectedTermRedefinition(imp[i].0))
            } else {
                apply_from(put(t, imp[i].0, imp[i].1), imp, i + 1)
            },
            None => apply_from(put(t, imp[i].0, imp[i].1), imp, i + 1),
        }
    }
}

/// What applying the gathered imports `imp` over the scope `c` gives: an imported
/// vocabulary replaces the scope's.
pub open spec fn apply_imports_spec(c: ContextView, imp: ContextView) -> Result<ContextView, ContextErrorView> {
    match apply_from(c.terms, imp.terms, 0) {
        Err(e) => Err(e),
        Ok(t) => Ok(
            ContextView {
                terms: t,
                vocab: if imp.vocab is Some {
                    imp.vocab
                } else {
                    c.vocab
                },
            },
        ),
    }
}

impl EffectiveContext {
    fn install_pass(&mut self, members: &Vec<(String, TermValue)>, prefixes: bool) -> (r: Result<
        (),
        ContextError,
    >)
        ensures
            match r {
                Ok(_) => install_from(old(self)@, inline_views(members@), prefixes, 0) == Ok::<
                    ContextView,
                    ContextErrorView,
                >(final(self)@),
                Err(e) => install_from(old(self)@, inline_views(members@), prefixes, 0) == Err::<
                    ContextView,
                    ContextErrorView,
                >(e@),
            },
            sorted_keys(old(self)@.terms) ==> sorted_keys(final(self)@.terms),
    {
        let ghost all = inline_views(members@);
        let mut i: usize = 0;
        while i < members.len()
            invariant
                i <= members.len(),
                all == inline_views(members@),
                install_from(old(self)@, all, prefixes, 0) == install_from(
                    self@,
                    all,
                    prefixes,
                    i as int,
                ),
                sorted_keys(old(self)@.terms) ==> sorted_keys(self@.terms),
            decreases members.len() - i,
        {
            assert(all[i as int] == (members@[i as int].0@, members@[i as int].1@));
            let key = &members[i].0;
            let value = &members[i].1;
            if !starts_with_at(key.as_str()) && is_prefix_definition(value) == prefixes {
                match self.install_binding(key.as_str(), value) {
                    Ok(_) => {},
                    Err(e) => {
                        return Err(e);
                    },
                }
            }
            i = i + 1;
        }
        Ok(())
    }

    /// Apply an inline context object, its members in the order the object lists them.
    pub fn apply_inline(&mut self, members: &Vec<(String, TermValue)>) -> (r: Result<
        (),
        ContextError,
    >)
        ensures
            match r {
                Ok(_) => inline_spec(old(self)@, inline_views(members@)) == Ok::<
                    ContextView,
                    ContextErrorView,
                >(final(self)@),
                Err(e) => inline_spec(old(self)@, inline_views(members@)) == Err::<
                    ContextView,
                    ContextErrorView,
                >(e@),
            },
            sorted_keys(old(self)@.terms) ==> sorted_keys(final(self)@.terms),
    {
        match first_keyword_of(members) {
            Some(k) => {
                return Err(ContextError::UnsupportedKeyword(k.clone()));
            },
            None => {},
        }
        match term_named(members, "@vocab") {
            None => {},
            Some(TermValue::Str(stem)) => {
                match validate_stem(stem.as_str()) {
                    Ok(_) => {},
                    Err(e) => {
                        return Err(e);
                    },
                }
                self.vocab = Some(stem.clone());
            },
            Some(_) => {
                return Err(ContextError::InvalidForm);
            },
        }
        match self.install_pass(members, true) {
            Ok(_) => {},
            Err(e) => {
                return Err(e);
            },
        }
        self.install_pass(members, false)
    }

    /// Merge a sibling import into the imports gathered so far; two imports that give a
    /// term, or the default vocabulary, different meanings collide.
    pub fn merge_import(&mut self, imported: &EffectiveContext) -> (r: Result<(), ContextError>)
        ensures
            match r {
                Ok(_) => merge_spec(old(self)@, imported@) == Ok::<ContextView, ContextErrorView>(
                    final(self)@,
                ),
                Err(e) => merge_spec(old(self)@, imported@) == Err::<ContextView, ContextErrorView>(
                    e@,
                ),
            },
            sorted_keys(old(self)@.terms) ==> sorted_keys(final(self)@.terms),
    {
        let ghost imp = imported@.terms;
        let mut i: usize = 0;
        while i < imported.terms.len()
            invariant
                i <= imported.terms.len(),
                imp == imported@.terms,
                imp == term_views(imported.terms@),
                self@.vocab == old(self)@.vocab,
                merge_from(old(self)@.terms, imp, 0) == merge_from(self@.terms, imp, i as int),
                sorted_keys(old(self)@.terms) ==> sorted_keys(self@.terms),
            decreases imported.terms.len() - i,
        {
            assert(imp[i as int] == (imported.terms@[i as int].0@, imported.terms@[i as int].1@));
            let key = &imported.terms[i].0;
            let b = &imported.terms[i].1;
            match self.binding(key.as_str()) {
                Some(old) => {
                    if !old.same_as(b) {
                        return Err(ContextError::TermCollision(key.clone()));
                    }
                },
                None => {},
            }
            self.bind(key.clone(), b.duplicate());
            i = i + 1;
        }
        match &imported.vocab {
            Some(v) => {
                match &self.vocab {
                    Some(old) => {
                        if !str_eq(old.as_str(), v.as_str()) {
                            return Err(ContextError::VocabCollision);
                        }
                    },
                    None => {},
                }
                self.vocab = Some(v.clone());
            },
            None => {},
        }
        Ok(())
    }

    /// Apply gathered imports over this scope: an import may not redefine a protected
    /// term, and an imported vocabulary replaces this scope's.
    pub fn apply_imports(&mut self, imported: &EffectiveContext) -> (r: Result<(), ContextError>)
        ensures
            match r {
                Ok(_) => apply_imports_spec(old(self)@, imported@) == Ok::<
                    ContextView,
                    ContextErrorView,
                >(final(self)@),
                Err(e) => apply_imports_spec(old(self)@, imported@) == Err::<
                    ContextView,
                    ContextErrorView,
                >(e@),
            },
            sorted_keys(old(self)@.terms) ==> sorted_keys(final(self)@.terms),
    {
        let ghost imp = imported@.terms;
        let mut i: usize = 0;
        while i < imported.terms.len()
            invariant
                i <= imported.terms.len(),
                imp == imported@.terms,
                imp == term_views(imported.terms@),
                self@.vocab == old(self)@.vocab,
                apply_from(old(self)@.terms, imp, 0) == apply_from(self@.terms, imp, i as int),
                sorted_keys(old(self)@.terms) ==> sorted_keys(self@.terms),
            decreases imported.terms.len() - i,
        {
            assert(imp[i as int] == (imported.terms@[i as int].0@, imported.terms@[i as int].1@));
            let key = &imported.terms[i].0;
            let b = &imported.terms[i].1;
            match self.binding(key.as_str()) {
                Some(old) => {
                    if old.protected && !old.same_as(b) {
                        return Err(ContextError::ProtectedTermRedefinition(key.clone()));
                    }
                },
                None => {},
            }
            self.bind(key.clone(), b.duplicate());
            i = i + 1;
        }
        match &imported.vocab {
            Some(v) => {
                self.vocab = Some(v.clone());
            },
            None => {},
        }
        Ok(())
    }
}

// ---------------------------------------------------------------------------
// Lexical paths
// ---------------------------------------------------------------------------

/// The directories a `/`-separated path walks through, `.` and empty parts skipped and
/// `..` undoing the last; `None` when `..` would leave the start.
pub open spec fn lexical_stack(parts: Seq<Seq<char>>) -> Option<Seq<Seq<char>>>
    decreases parts.len(),
{
    if parts.len() == 0 {
        Some(Seq::<Seq<char>>::empty())
    } else {
        match lexical_stack(parts.drop_last()) {
            None => None,
            Some(st) => {
                let p = parts.last();
                if p.len() == 0 || p == "."@ {
                    Some(st)
                } else if p == ".."@ {
                    if st.len() == 0 {
                        None
                    } else {
                        Some(st.drop_last())
                    }
                } else {
                    Some(st.push(p))
                }
            },
        }
    }
}

/// A path normalized without touching a filesystem: absolute paths stay absolute, and a
/// relative path that walks nowhere is `.`; `None` when it climbs above its start.
pub open spec fn lexical_path(path: Seq<char>) -> Option<Seq<char>> {
    match lexical_stack(crate::text::split(path, '/')) {
        None => None,
        Some(st) => {
            let joined = crate::text::join(st, seq!['/']);
            if path.len() > 0 && path[0] == '/' {
                Some(seq!['/'] + joined)
            } else if joined.len() == 0 {
                Some(seq!['.'])
            } else {
                Some(joined)
            }
        },
    }
}

proof fn lemma_lexical_stuck(parts: Seq<Seq<char>>, i: int)
    requires
        0 <= i <= parts.len(),
        lexical_stack(parts.take(i)) is None,
    ensures
        lexical_stack(parts) is None,
    decreases parts.len() - i,
{
    if i < parts.len() {
        assert(parts.take(i + 1).drop_last() =~= parts.take(i));
        lemma_lexical_stuck(parts, i + 1);
    } else {
        assert(parts.take(i) =~= parts);
    }
}

/// Normalizes `path` lexically, or refuses it as escaping its start.
pub fn normalize_lexical_path(path: &str) -> (r: Result<String, ContextError>)
    ensures
        match r {
            Ok(n) => lexical_path(path@) == Some(n@),
            Err(e) => lexical_path(path@) is None && e@ == ContextErrorView::PathEscape,
        },
{
    let cs = chars_of(path);
    let parts = crate::text::split_chars(cs.as_slice(), '/');
    let ghost all = crate::text::split(path@, '/');
    assert(crate::text::views(parts@) =~= all);
    let mut stack: Vec<Vec<char>> = Vec::new();
    let mut i: usize = 0;
    assert(all.take(0) =~= Seq::<Seq<char>>::empty());
    while i < parts.len()
        invariant
            i <= parts.len(),
            all == crate::text::views(parts@),
            all == crate::text::split(path@, '/'),
            all.len() == parts@.len(),
            lexical_stack(all.take(i as int)) == Some(crate::text::views(stack@)),
        decreases parts.len() - i,
    {
        assert(all.take(i as int + 1).drop_last() =~= all.take(i as int));
        assert(all.take(i as int + 1).last() == parts@[i as int]@);
        let part = &parts[i];
        let dot = vec!['.'];
        let dots = vec!['.', '.'];
        proof {
            reveal_strlit(".");
            reveal_strlit("..");
        }
        assert(dot@ =~= "."@);
        assert(dots@ =~= ".."@);
        if part.len() == 0 || crate::text::seq_eq(part.as_slice(), dot.as_slice()) {
        } else if crate::text::seq_eq(part.as_slice(), dots.as_slice()) {
            if stack.len() == 0 {
                proof {
                    assert(crate::text::views(stack@).len() == 0);
                    assert(all.take(i as int + 1).last() == ".."@);
                    assert(lexical_stack(all.take(i as int + 1)) is None);
                    lemma_lexical_stuck(all, i as int + 1);
                }
                return Err(ContextError::PathEscape);
            }
            let ghost before = stack@;
            stack.pop();
            assert(crate::text::views(stack@) =~= crate::text::views(before).drop_last());
        } else {
            let ghost before = stack@;
            stack.push(part.clone());
            assert(crate::text::views(stack@) =~= crate::text::views(before).push(part@));
        }
        i = i + 1;
    }
    assert(all.take(i as int) =~= all);
    let sep = vec!['/'];
    assert(sep@ =~= seq!['/']);
    let joined = crate::text::join_chars(&stack, sep.as_slice());
    assert(cs@ == path@);
    if cs.len() > 0 && cs[0] == '/' {
        let mut out: Vec<char> = vec!['/'];
        push_chars(&mut out, joined.as_slice());
        assert(out@ =~= seq!['/'] + joined@);
        Ok(string_of(out.as_slice()))
    } else if joined.len() == 0 {
        let dot = vec!['.'];
        assert(dot@ =~= seq!['.']);
        Ok(string_of(dot.as_slice()))
    } else {
        Ok(string_of(joined.as_slice()))
    }
}

/// Whether the normalized path `n` lies within `root`: `.` holds every relative path, `/`
/// every absolute one, and any other root itself and what lies below it.
pub open spec fn within_root(n: Seq<char>, root: Seq<char>) -> bool {
    if root == "."@ {
        !(n.len() > 0 && n[0] == '/')
    } else if root == "/"@ {
        n.len() > 0 && n[0] == '/'
    } else {
        n == root || has_prefix(n, root + seq!['/'])
    }
}

/// `path` normalized and confined to `root`.
pub open spec fn confined_path(path: Seq<char>, root: Seq<char>) -> Result<Seq<char>, ContextErrorView> {
    match lexical_path(path) {
        None => Err(ContextErrorView::PathEscape),
        Some(n) => if within_root(n, root) {
            Ok(n)
        } else {
            Err(ContextErrorView::PathEscape)
        },
    }
}

/// Normalizes `path` and refuses it unless it lies within `root`.
pub fn normalize_path(path: &str, root: &str) -> (r: Result<String, ContextError>)
    ensures
        match r {
            Ok(n) => confined_path(path@, root@) == Ok::<Seq<char>, ContextErrorView>(n@),
            Err(e) => confined_path(path@, root@) == Err::<Seq<char>, ContextErrorView>(e@),
        },
{
    let normalized = match normalize_lexical_path(path) {
        Ok(n) => n,
        Err(e) => {
            return Err(e);
        },
    };
    let ncs = chars_of(normalized.as_str());
    let absolute = ncs.len() > 0 && ncs[0] == '/';
    let within = if str_eq(root, ".") {
        !absolute
    } else if str_eq(root, "/") {
        absolute
    } else {
        let below = prefixed(root, "/");
        let bcs = chars_of(below.as_str());
        proof {
            reveal_strlit("/");
        }
        assert(bcs@ == root@ + seq!['/']);
        str_eq(normalized.as_str(), root) || crate::text::starts_with(ncs.as_slice(), bcs.as_slice())
    };
    if within {
        Ok(normalized)
    } else {
        Err(ContextError::PathEscape)
    }
}

// ---------------------------------------------------------------------------
// Supplied resources
// ---------------------------------------------------------------------------

/// The deepest chain of nested context imports resolution follows.
pub const MAX_CONTEXT_IMPORT_DEPTH: usize = 128;

/// One supplied resource: its bytes, and whether the caller trusts them.
#[derive(Debug, Clone)]
struct LoadedResource {
    bytes: Vec<u8>,
    trusted: bool,
}

/// Explicit, already-loaded context bytes. Resolution never reads a file or fetches a URL.
#[derive(Debug, Clone)]
pub struct ContextResources {
    root: String,
    loaded: Vec<(String, LoadedResource)>,
}

/// Supplied resources as plain values: the root, and each identity with its bytes and trust.
pub struct ResourcesView {
    pub root: Seq<char>,
    pub loaded: Seq<(Seq<char>, Seq<u8>, bool)>,
}

pub closed spec fn loaded_views(v: Seq<(String, LoadedResource)>) -> Seq<(Seq<char>, Seq<u8>, bool)> {
    v.map_values(|e: (String, LoadedResource)| (e.0@, e.1.bytes@, e.1.trusted))
}

impl View for ContextResources {
    type V = ResourcesView;

    closed spec fn view(&self) -> ResourcesView {
        ResourcesView { root: self.root@, loaded: loaded_views(self.loaded@) }
    }
}

/// The bytes and trust supplied under `identity`, if any.
pub open spec fn resource_lookup(es: Seq<(Seq<char>, Seq<u8>, bool)>, identity: Seq<char>) -> Option<(Seq<u8>, bool)>
    decreases es.len(),
{
    if es.len() == 0 {
        None
    } else if es[0].0 == identity {
        Some((es[0].1, es[0].2))
    } else {
        resource_lookup(es.drop_first(), identity)
    }
}

/// `es` with `identity` supplied as `bytes`: an earlier supply is replaced in place, a new
/// one goes last.
pub open spec fn store(
    es: Seq<(Seq<char>, Seq<u8>, bool)>,
    identity: Seq<char>,
    bytes: Seq<u8>,
    trusted: bool,
) -> Seq<(Seq<char>, Seq<u8>, bool)>
    decreases es.len(),
{
    if es.len() == 0 {
        seq![(identity, bytes, trusted)]
    } else if es[0].0 == identity {
        seq![(identity, bytes, trusted)] + es.drop_first()
    } else {
        seq![es[0]] + store(es.drop_first(), identity, bytes, trusted)
    }
}

/// A resource, once supplied, is found under its identity with the bytes and trust last
/// supplied for it; other identities are unaffected.
pub proof fn lemma_store_lookup(
    es: Seq<(Seq<char>, Seq<u8>, bool)>,
    identity: Seq<char>,
    bytes: Seq<u8>,
    trusted: bool,
    other: Seq<char>,
)
    ensures
        resource_lookup(store(es, identity, bytes, trusted), other) == if other == identity {
            Some((bytes, trusted))
        } else {
            resource_lookup(es, other)
        },
    decreases es.len(),
{
    let st = store(es, identity, bytes, trusted);
    if es.len() == 0 {
        assert(st =~= seq![(identity, bytes, trusted)]);
        assert(st.drop_first() =~= Seq::<(Seq<char>, Seq<u8>, bool)>::empty());
        assert(resource_lookup(st.drop_first(), other) is None);
    } else if es[0].0 == identity {
        assert(st =~= seq![(identity, bytes, trusted)] + es.drop_first());
        assert(st.drop_first() =~= es.drop_first());
    } else {
        lemma_store_lookup(es.drop_first(), identity, bytes, trusted, other);
        assert(st =~= seq![es[0]] + store(es.drop_first(), identity, bytes, trusted));
        assert(st.drop_first() =~= store(es.drop_first(), identity, bytes, trusted));
    }
}

proof fn lemma_store_at(
    es: Seq<(Seq<char>, Seq<u8>, bool)>,
    identity: Seq<char>,
    bytes: Seq<u8>,
    trusted: bool,
    i: int,
)
    requires
        0 <= i <= es.len(),
        forall|j: int| 0 <= j < i ==> (#[trigger] es[j]).0 != identity,
        i < es.len() ==> es[i].0 == identity,
    ensures
        store(es, identity, bytes, trusted) == if i < es.len() {
            es.update(i, (identity, bytes, trusted))
        } else {
            es.push((identity, bytes, trusted))
        },
    decreases i,
{
    if i == 0 {
        if es.len() > 0 {
            assert(seq![(identity, bytes, trusted)] + es.drop_first() =~= es.update(0, (identity, bytes, trusted)));
        } else {
            assert(seq![(identity, bytes, trusted)] =~= es.push((identity, bytes, trusted)));
        }
    } else {
        let rest = es.drop_first();
        assert forall|j: int| 0 <= j < i - 1 implies (#[trigger] rest[j]).0 != identity by {
            assert(rest[j] == es[j + 1]);
        }
        lemma_store_at(rest, identity, bytes, trusted, i - 1);
        assert(es[0].0 != identity);
        if i < es.len() {
            assert(seq![es[0]] + rest.update(i - 1, (identity, bytes, trusted)) =~= es.update(
                i,
                (identity, bytes, trusted),
            ));
        } else {
            assert(seq![es[0]] + rest.push((identity, bytes, trusted)) =~= es.push((identity, bytes, trusted)));
        }
    }
}

impl ContextResources {
    /// Resources under a local path root used for lexical confinement of relative imports.
    ///
    /// The root is normalized without filesystem access; a root that climbs above its start
    /// is kept as given.
    pub fn new(root: &str) -> (r: ContextResources)
        ensures
            r@.root == match lexical_path(root@) {
                Some(n) => n,
                None => root@,
            },
            r@.loaded == Seq::<(Seq<char>, Seq<u8>, bool)>::empty(),
    {
        let root = match normalize_lexical_path(root) {
            Ok(n) => n,
            Err(_) => root.to_owned(),
        };
        let r = ContextResources { root, loaded: Vec::new() };
        assert(r@.loaded =~= Seq::<(Seq<char>, Seq<u8>, bool)>::empty());
        r
    }

    /// The normalized path root.
    pub fn root(&self) -> (r: &str)
        ensures
            r@ == self@.root,
    {
        self.root.as_str()
    }

    fn supply(&mut self, identity: String, bytes: Vec<u8>, trusted: bool)
        ensures
            final(self)@.root == old(self)@.root,
            final(self)@.loaded == store(old(self)@.loaded, identity@, bytes@, trusted),
    {
        let ghost all = old(self)@.loaded;
        let mut i: usize = 0;
        while i < self.loaded.len() && !str_eq(self.loaded[i].0.as_str(), identity.as_str())
            invariant
                i <= self.loaded.len(),
                self@ == old(self)@,
                all == loaded_views(self.loaded@),
                forall|j: int| 0 <= j < i ==> (#[trigger] all[j]).0 != identity@,
            decreases self.loaded.len() - i,
        {
            i = i + 1;
        }
        proof {
            lemma_store_at(all, identity@, bytes@, trusted, i as int);
        }
        let ghost entry = (identity@, bytes@, trusted);
        let resource = LoadedResource { bytes, trusted };
        if i < self.loaded.len() {
            self.loaded.set(i, (identity, resource));
            assert(loaded_views(self.loaded@) =~= all.update(i as int, entry));
        } else {
            self.loaded.push((identity, resource));
            assert(loaded_views(self.loaded@) =~= all.push(entry));
        }
    }

    /// The bytes of every supplied resource, in the order they were first supplied.
    pub fn supplied_bytes(&self) -> (r: Vec<&[u8]>)
        ensures
            r@.len() == self@.loaded.len(),
            forall|i: int| 0 <= i < r@.len() ==> (#[trigger] r@[i])@ == self@.loaded[i].1,
    {
        let mut out: Vec<&[u8]> = Vec::new();
        let mut i: usize = 0;
        while i < self.loaded.len()
            invariant
                i <= self.loaded@.len(),
                out@.len() == i,
                self@.loaded == loaded_views(self.loaded@),
                forall|j: int| 0 <= j < i ==> (#[trigger] out@[j])@ == self@.loaded[j].1,
            decreases self.loaded.len() - i,
        {
            out.push(self.loaded[i].1.bytes.as_slice());
            i = i + 1;
        }
        out
    }

    /// Supply bytes under a local path inside the root; they are trusted.
    pub fn insert_local(&mut self, path: &str, bytes: Vec<u8>)
        ensures
            final(self)@.root == old(self)@.root,
            final(self)@.loaded == store(
                old(self)@.loaded,
                match lexical_path(path@) {
                    Some(n) => n,
                    None => path@,
                },
                bytes@,
                true,
            ),
    {
        let identity = match normalize_lexical_path(path) {
            Ok(n) => n,
            Err(_) => path.to_owned(),
        };
        self.supply(identity, bytes, true);
    }

    /// Supply bytes for one digest reference, with the caller's trust decision.
    pub fn insert_verified(&mut self, reference: &str, bytes: Vec<u8>, trusted: bool)
        ensures
            final(self)@.root == old(self)@.root,
            final(self)@.loaded == store(old(self)@.loaded, reference@, bytes@, trusted),
    {
        self.supply(reference.to_owned(), bytes, trusted);
    }
}

// ---------------------------------------------------------------------------
// Import references
// ---------------------------------------------------------------------------

/// Where a context being resolved came from, which decides how a relative import in it
/// resolves.
#[derive(Debug, Clone, PartialEq, Eq)]
pub enum ContextBase {
    /// The document itself: relative imports resolve against the resources' root.
    Workspace,
    /// A local context file: relative imports resolve against its directory.
    Local(String),
    /// A digest-addressed context: it has no directory to resolve against.
    ContentAddressed,
}

pub enum BaseView {
    Workspace,
    Local(Seq<char>),
    ContentAddressed,
}

impl View for ContextBase {
    type V = BaseView;

    open spec fn view(&self) -> BaseView {
        match self {
            ContextBase::Workspace => BaseView::Workspace,
            ContextBase::Local(f) => BaseView::Local(f@),
            ContextBase::ContentAddressed => BaseView::ContentAddressed,
        }
    }
}

/// The resource an import names, and whether it is addressed by its digest.
#[derive(Debug, Clone, PartialEq, Eq)]
pub struct ImportTarget {
    pub identity: String,
    pub hashed: bool,
}

pub open spec fn digest_scheme() -> Seq<char> {
    "morphir://context/sha256/"@
}

pub open spec fn all_lower_hex(s: Seq<char>) -> bool {
    forall|i: int| 0 <= i < s.len() ==> crate::naming::stem::is_lower_hex(#[trigger] s[i])
}

/// Whether `s` holds `://`.
pub open spec fn has_scheme_mark(s: Seq<char>) -> bool {
    exists|i: int| 0 <= i && i + 2 < s.len() && #[trigger] s[i] == ':' && s[i + 1] == '/' && s[i + 2] == '/'
}

pub open spec fn has_suffix(s: Seq<char>, t: Seq<char>) -> bool {
    s.len() >= t.len() && s.skip(s.len() - t.len()) == t
}

/// The index of the last `c` in `s`.
pub open spec fn last_at(s: Seq<char>, c: char) -> Option<int>
    decreases s.len(),
{
    if s.len() == 0 {
        None
    } else if s.last() == c {
        Some(s.len() - 1)
    } else {
        last_at(s.drop_last(), c)
    }
}

/// The directory of a local context file: what precedes its last `/`, or `.`.
pub open spec fn file_dir(file: Seq<char>) -> Seq<char> {
    match last_at(file, '/') {
        Some(i) => file.take(i),
        None => "."@,
    }
}

/// The resource an import `reference` names under `root` and `base`: a digest reference
/// is its own identity; a local reference is a relative `.jsonld` path, resolved against
/// the root (unless it already starts there) or the importing file's directory, and
/// confined to the root.
pub open spec fn reference_target(root: Seq<char>, reference: Seq<char>, base: BaseView) -> Result<(Seq<char>, bool), ContextErrorView> {
    if has_prefix(reference, digest_scheme()) {
        let digest = reference.skip(digest_scheme().len() as int);
        if digest.len() == 64 && all_lower_hex(digest) {
            Ok((reference, true))
        } else {
            Err(ContextErrorView::InvalidForm)
        }
    } else if has_scheme_mark(reference) {
        Err(ContextErrorView::RemoteForbidden(reference))
    } else if reference.len() > 0 && reference[0] == '/' {
        Err(ContextErrorView::PathEscape)
    } else if !has_suffix(reference, ".jsonld"@) {
        Err(ContextErrorView::InvalidForm)
    } else {
        let candidate = match base {
            BaseView::Workspace => if has_prefix(reference, root + seq!['/']) {
                Some(reference)
            } else {
                Some(root + seq!['/'] + reference)
            },
            BaseView::Local(file) => Some(file_dir(file) + seq!['/'] + reference),
            BaseView::ContentAddressed => None,
        };
        match candidate {
            None => Err(ContextErrorView::RelativeImportWithoutBase),
            Some(c) => match confined_path(c, root) {
                Ok(n) => Ok((n, false)),
                Err(e) => Err(e),
            },
        }
    }
}

fn scheme_mark_in(s: &[char]) -> (r: bool)
    ensures
        r == has_scheme_mark(s@),
{
    if s.len() < 3 {
        return false;
    }
    let mut i: usize = 0;
    while i < s.len() - 2
        invariant
            s.len() >= 3,
            i <= s.len() - 2,
            forall|j: int| 0 <= j < i ==> !(j + 2 < s@.len() && #[trigger] s@[j] == ':' && s@[j + 1] == '/' && s@[j + 2] == '/'),
        decreases s.len() - i,
    {
        if s[i] == ':' && s[i + 1] == '/' && s[i + 2] == '/' {
            return true;
        }
        i = i + 1;
    }
    assert forall|j: int| 0 <= j && j + 2 < s@.len() implies !(#[trigger] s@[j] == ':' && s@[j + 1] == '/' && s@[j + 2] == '/') by {
        assert(j < i);
    }
    false
}

fn ends_with_chars(s: &[char], t: &[char]) -> (r: bool)
    ensures
        r == has_suffix(s@, t@),
{
    if t.len() > s.len() {
        return false;
    }
    let tail = crate::text::subrange(s, s.len() - t.len(), s.len());
    assert(tail@ =~= s@.skip(s@.len() - t@.len()));
    crate::text::seq_eq(tail.as_slice(), t)
}

fn last_slash(s: &[char]) -> (r: Option<usize>)
    ensures
        match r {
            Some(i) => last_at(s@, '/') == Some(i as int),
            None => last_at(s@, '/') is None,
        },
{
    let mut n: usize = s.len();
    assert(s@.take(n as int) =~= s@);
    while n > 0
        invariant
            n <= s.len(),
            last_at(s@, '/') == last_at(s@.take(n as int), '/'),
        decreases n,
    {
        assert(s@.take(n as int).drop_last() =~= s@.take(n as int - 1));
        assert(s@.take(n as int).last() == s@[n as int - 1]);
        if s[n - 1] == '/' {
            return Some(n - 1);
        }
        n = n - 1;
    }
    None
}

fn lower_hex_all(s: &[char]) -> (r: bool)
    ensures
        r == all_lower_hex(s@),
{
    let mut i: usize = 0;
    while i < s.len()
        invariant
            i <= s.len(),
            forall|j: int| 0 <= j < i ==> crate::naming::stem::is_lower_hex(#[trigger] s@[j]),
        decreases s.len() - i,
    {
        let c = s[i];
        if !(('0' <= c && c <= '9') || ('a' <= c && c <= 'f')) {
            return false;
        }
        i = i + 1;
    }
    true
}

impl ContextResources {
    /// The resource an import `reference` names, read from a context that came from `base`.
    pub fn import_target(&self, reference: &str, base: &ContextBase) -> (r: Result<ImportTarget, ContextError>)
        ensures
            match r {
                Ok(t) => reference_target(self@.root, reference@, base@) == Ok::<
                    (Seq<char>, bool),
                    ContextErrorView,
                >((t.identity@, t.hashed)),
                Err(e) => reference_target(self@.root, reference@, base@) == Err::<
                    (Seq<char>, bool),
                    ContextErrorView,
                >(e@),
            },
    {
        let cs = chars_of(reference);
        let scheme = chars_of("morphir://context/sha256/");
        proof {
            reveal_strlit("morphir://context/sha256/");
        }
        assert(scheme@.len() == 25);
        if crate::text::starts_with(cs.as_slice(), scheme.as_slice()) {
            let digest = crate::text::subrange(cs.as_slice(), 25, cs.len());
            assert(digest@ =~= reference@.skip(25));
            if digest.len() == 64 && lower_hex_all(digest.as_slice()) {
                return Ok(ImportTarget { identity: reference.to_owned(), hashed: true });
            }
            return Err(ContextError::InvalidForm);
        }
        if scheme_mark_in(cs.as_slice()) {
            return Err(ContextError::RemoteForbidden(reference.to_owned()));
        }
        if cs.len() > 0 && cs[0] == '/' {
            return Err(ContextError::PathEscape);
        }
        let ext = chars_of(".jsonld");
        if !ends_with_chars(cs.as_slice(), ext.as_slice()) {
            return Err(ContextError::InvalidForm);
        }
        let candidate = match base {
            ContextBase::Workspace => {
                let below = prefixed(self.root.as_str(), "/");
                proof {
                    reveal_strlit("/");
                }
                assert(below@ == self@.root + seq!['/']);
                let bcs = chars_of(below.as_str());
                if crate::text::starts_with(cs.as_slice(), bcs.as_slice()) {
                    assert(has_prefix(reference@, self@.root + seq!['/']));
                    reference.to_owned()
                } else {
                    assert(!has_prefix(reference@, self@.root + seq!['/']));
                    prefixed(below.as_str(), reference)
                }
            },
            ContextBase::Local(file) => {
                let fcs = chars_of(file.as_str());
                let dir = match last_slash(fcs.as_slice()) {
                    Some(i) => {
                        proof {
                            assert(last_at(file@, '/') == Some(i as int));
                            lemma_last_at(file@, '/');
                        }
                        let d = crate::text::subrange(fcs.as_slice(), 0, i);
                        assert(d@ =~= file@.take(i as int));
                        string_of(d.as_slice())
                    },
                    None => {
                        proof {
                            reveal_strlit(".");
                        }
                        String::from_str(".")
                    },
                };
                assert(dir@ == file_dir(file@));
                let with_slash = prefixed(dir.as_str(), "/");
                proof {
                    reveal_strlit("/");
                }
                assert(with_slash@ == file_dir(file@) + seq!['/']);
                prefixed(with_slash.as_str(), reference)
            },
            ContextBase::ContentAddressed => {
                return Err(ContextError::RelativeImportWithoutBase);
            },
        };
        match normalize_path(candidate.as_str(), self.root.as_str()) {
            Ok(n) => Ok(ImportTarget { identity: n, hashed: false }),
            Err(e) => Err(e),
        }
    }
}

proof fn lemma_last_at(s: Seq<char>, c: char)
    ensures
        last_at(s, c) matches Some(i) ==> 0 <= i < s.len(),
    decreases s.len(),
{
    if s.len() > 0 && s.last() != c {
        lemma_last_at(s.drop_last(), c);
    }
}

// ---------------------------------------------------------------------------
// Loading an import
// ---------------------------------------------------------------------------

/// What loading the resource `identity` names gives: its bytes, when they were supplied
/// and, for a digest reference, trusted and matching the digest that ends `reference`.
pub open spec fn load_spec(
    loaded: Seq<(Seq<char>, Seq<u8>, bool)>,
    identity: Seq<char>,
    hashed: bool,
    reference: Seq<char>,
) -> Result<Seq<u8>, ContextErrorView> {
    match resource_lookup(loaded, identity) {
        None => Err(ContextErrorView::ResourceUnavailable(identity)),
        Some((bytes, trusted)) => if hashed && !trusted {
            Err(ContextErrorView::ResourceUntrusted(identity))
        } else if hashed && !has_suffix(
            reference,
            crate::naming::stem::hex_of(crate::naming::stem::sha256_digest(bytes)),
        ) {
            Err(ContextErrorView::DigestMismatch(reference))
        } else {
            Ok(bytes)
        },
    }
}

impl ContextResources {
    /// The bytes an import names, checked against its trust and digest.
    pub fn load(&self, target: &ImportTarget, reference: &str) -> (r: Result<&[u8], ContextError>)
        ensures
            match r {
                Ok(b) => load_spec(self@.loaded, target.identity@, target.hashed, reference@)
                    == Ok::<Seq<u8>, ContextErrorView>(b@),
                Err(e) => load_spec(self@.loaded, target.identity@, target.hashed, reference@)
                    == Err::<Seq<u8>, ContextErrorView>(e@),
            },
    {
        let ghost all = self@.loaded;
        let mut i: usize = 0;
        assert(all.skip(0) =~= all);
        while i < self.loaded.len()
            invariant
                i <= self.loaded.len(),
                all == self@.loaded,
                all == loaded_views(self.loaded@),
                resource_lookup(all, target.identity@) == resource_lookup(
                    all.skip(i as int),
                    target.identity@,
                ),
            decreases self.loaded.len() - i,
        {
            assert(all.skip(i as int).drop_first() =~= all.skip(i as int + 1));
            assert(all.skip(i as int)[0] == all[i as int]);
            if str_eq(self.loaded[i].0.as_str(), target.identity.as_str()) {
                let resource = &self.loaded[i].1;
                if target.hashed {
                    if !resource.trusted {
                        return Err(ContextError::ResourceUntrusted(target.identity.clone()));
                    }
                    let digest = crate::naming::stem::sha256(resource.bytes.as_slice());
                    let actual = crate::naming::stem::hex_chars(digest.as_slice());
                    let rcs = chars_of(reference);
                    if !ends_with_chars(rcs.as_slice(), actual.as_slice()) {
                        return Err(ContextError::DigestMismatch(reference.to_owned()));
                    }
                }
                return Ok(resource.bytes.as_slice());
            }
            i = i + 1;
        }
        Err(ContextError::ResourceUnavailable(target.identity.clone()))
    }
}

/// Whether a parsed context resource is a context envelope: an object whose one member is
/// `@context`.
pub fn is_context_envelope(member_names: &[String]) -> (r: bool)
    ensures
        r == (member_names@.len() == 1 && member_names@[0]@ == "@context"@),
{
    member_names.len() == 1 && str_eq(member_names[0].as_str(), "@context")
}

// ---------------------------------------------------------------------------
// The import closure
// ---------------------------------------------------------------------------

/// The imports seen so far in one resolution, and the chain of imports being resolved.
#[derive(Debug, Clone)]
pub struct ImportState {
    seen: Vec<String>,
    active: Vec<String>,
}

pub struct ImportStateView {
    pub seen: Seq<Seq<char>>,
    pub active: Seq<Seq<char>>,
}

pub open spec fn string_views(v: Seq<String>) -> Seq<Seq<char>> {
    v.map_values(|s: String| s@)
}

impl View for ImportState {
    type V = ImportStateView;

    closed spec fn view(&self) -> ImportStateView {
        ImportStateView { seen: string_views(self.seen@), active: string_views(self.active@) }
    }
}

/// What starting to import `identity` makes of the state: an import back into the chain
/// being resolved is a cycle, a chain already [`MAX_CONTEXT_IMPORT_DEPTH`] long goes no
/// deeper, and a resource imported once in the closure is not imported again.
pub open spec fn begin_spec(st: ImportStateView, identity: Seq<char>) -> Result<ImportStateView, ContextErrorView> {
    if st.active.contains(identity) {
        Err(ContextErrorView::ImportCycle(identity))
    } else if st.active.len() >= MAX_CONTEXT_IMPORT_DEPTH {
        Err(ContextErrorView::ImportDepthExceeded(MAX_CONTEXT_IMPORT_DEPTH))
    } else if st.seen.contains(identity) {
        Err(ContextErrorView::DuplicateImport(identity))
    } else {
        Ok(ImportStateView { seen: st.seen.push(identity), active: st.active })
    }
}

fn contains_string(v: &Vec<String>, s: &str) -> (r: bool)
    ensures
        r == string_views(v@).contains(s@),
{
    let mut i: usize = 0;
    while i < v.len()
        invariant
            i <= v.len(),
            forall|j: int| 0 <= j < i ==> (#[trigger] v@[j])@ != s@,
        decreases v.len() - i,
    {
        if str_eq(v[i].as_str(), s) {
            assert(string_views(v@)[i as int] == s@);
            return true;
        }
        i = i + 1;
    }
    assert forall|j: int| 0 <= j < string_views(v@).len() implies string_views(v@)[j] != s@ by {
        assert(string_views(v@)[j] == v@[j]@);
    }
    false
}

impl ImportState {
    /// No imports seen, none being resolved.
    pub fn new() -> (r: ImportState)
        ensures
            r@.seen == Seq::<Seq<char>>::empty(),
            r@.active == Seq::<Seq<char>>::empty(),
    {
        let r = ImportState { seen: Vec::new(), active: Vec::new() };
        assert(r@.seen =~= Seq::<Seq<char>>::empty());
        assert(r@.active =~= Seq::<Seq<char>>::empty());
        r
    }

    /// Start importing `identity`, refusing a cycle, too deep a chain, or a repeat.
    pub fn begin(&mut self, identity: &str) -> (r: Result<(), ContextError>)
        ensures
            match r {
                Ok(_) => begin_spec(old(self)@, identity@) == Ok::<ImportStateView, ContextErrorView>(
                    final(self)@,
                ),
                Err(e) => begin_spec(old(self)@, identity@) == Err::<
                    ImportStateView,
                    ContextErrorView,
                >(e@) && final(self)@ == old(self)@,
            },
    {
        if contains_string(&self.active, identity) {
            return Err(ContextError::ImportCycle(identity.to_owned()));
        }
        if self.active.len() >= MAX_CONTEXT_IMPORT_DEPTH {
            assert(string_views(self.active@).len() == self.active@.len());
            return Err(ContextError::ImportDepthExceeded(MAX_CONTEXT_IMPORT_DEPTH));
        }
        assert(string_views(self.active@).len() == self.active@.len());
        if contains_string(&self.seen, identity) {
            return Err(ContextError::DuplicateImport(identity.to_owned()));
        }
        let ghost before = self.seen@;
        self.seen.push(identity.to_owned());
        assert(string_views(self.seen@) =~= string_views(before).push(identity@));
        Ok(())
    }

    /// Enter the resource `identity`: its own imports resolve with it in the chain.
    pub fn enter(&mut self, identity: &str)
        ensures
            final(self)@.seen == old(self)@.seen,
            final(self)@.active == old(self)@.active.push(identity@),
    {
        let ghost before = self.active@;
        self.active.push(identity.to_owned());
        assert(string_views(self.active@) =~= string_views(before).push(identity@));
    }

    /// Leave the resource `identity`: it is no longer in the chain.
    pub fn leave(&mut self, identity: &str)
        ensures
            final(self)@.seen == old(self)@.seen,
            final(self)@.active == old(self)@.active.filter(|a: Seq<char>| a != identity@),
    {
        let ghost all = self@.active;
        let mut kept: Vec<String> = Vec::new();
        let mut i: usize = 0;
        assert(all.take(0).filter(|a: Seq<char>| a != identity@) =~= Seq::<Seq<char>>::empty());
        while i < self.active.len()
            invariant
                i <= self.active.len(),
                all == string_views(self.active@),
                string_views(kept@) == all.take(i as int).filter(|a: Seq<char>| a != identity@),
            decreases self.active.len() - i,
        {
            assert(all.take(i as int + 1).drop_last() =~= all.take(i as int));
            assert(all.take(i as int + 1).last() == self.active@[i as int]@);
            proof {
                all.take(i as int).lemma_filter_push(
                    self.active@[i as int]@,
                    |a: Seq<char>| a != identity@,
                );
                assert(all.take(i as int + 1) =~= all.take(i as int).push(self.active@[i as int]@));
            }
            if !str_eq(self.active[i].as_str(), identity) {
                let ghost before = kept@;
                kept.push(self.active[i].clone());
                assert(string_views(kept@) =~= string_views(before).push(self.active@[i as int]@));
            }
            i = i + 1;
        }
        assert(all.take(i as int) =~= all);
        self.active = kept;
    }
}

// ---------------------------------------------------------------------------
// Context forms
// ---------------------------------------------------------------------------

/// The kind of one item of an authored context array.
#[derive(Debug, Clone, Copy, PartialEq, Eq, Structural)]
pub enum ListItemKind {
    /// A string: an import reference.
    Reference,
    /// An object: inline definitions.
    Inline,
    /// Anything else.
    Other,
}

/// What to do with one item of an authored context array.
#[derive(Debug, Clone, Copy, PartialEq, Eq, Structural)]
pub enum ListAction {
    /// Resolve the reference and merge it into the imports gathered so far.
    Import,
    /// Keep the inline definitions, to apply after the imports.
    Inline,
}

/// What the grammar does with item `index` of a context array of `len` items: the first
/// item is a reference, references come before the one inline object, which comes last.
pub open spec fn list_action_spec(index: int, len: int, kind: ListItemKind, inline_taken: bool) -> Result<ListAction, ContextErrorView> {
    if index == 0 && kind != ListItemKind::Reference {
        Err(ContextErrorView::InvalidForm)
    } else {
        match kind {
            ListItemKind::Reference => if !inline_taken {
                Ok(ListAction::Import)
            } else {
                Err(ContextErrorView::InvalidForm)
            },
            ListItemKind::Inline => if index + 1 == len && !inline_taken {
                Ok(ListAction::Inline)
            } else {
                Err(ContextErrorView::InvalidForm)
            },
            ListItemKind::Other => Err(ContextErrorView::InvalidForm),
        }
    }
}

/// The action for item `index` of a context array of `len` items.
pub fn list_action(index: usize, len: usize, kind: ListItemKind, inline_taken: bool) -> (r: Result<
    ListAction,
    ContextError,
>)
    ensures
        match r {
            Ok(a) => list_action_spec(index as int, len as int, kind, inline_taken) == Ok::<
                ListAction,
                ContextErrorView,
            >(a),
            Err(e) => list_action_spec(index as int, len as int, kind, inline_taken) == Err::<
                ListAction,
                ContextErrorView,
            >(e@),
        },
{
    if index == 0 && kind != ListItemKind::Reference {
        return Err(ContextError::InvalidForm);
    }
    match kind {
        ListItemKind::Reference => {
            if !inline_taken {
                Ok(ListAction::Import)
            } else {
                Err(ContextError::InvalidForm)
            }
        },
        ListItemKind::Inline => {
            if index < len && index + 1 == len && !inline_taken {
                Ok(ListAction::Inline)
            } else {
                Err(ContextError::InvalidForm)
            }
        },
        ListItemKind::Other => Err(ContextError::InvalidForm),
    }
}

// ---------------------------------------------------------------------------
// Laws
// ---------------------------------------------------------------------------

/// A term, once defined, is what its key expands to: the exact term is found before any
/// prefix or vocabulary, and it expands to its expanded target with the coercion its
/// definition requests.
pub proof fn lemma_defined_term_expands(c: ContextView, key: Seq<char>, v: TermView)
    requires
        install_spec(c, key, v) is Ok,
        decode_term(v) matches Ok(d) && !d.prefix,
    ensures
        match (install_spec(c, key, v), decode_term(v)) {
            (Ok(c2), Ok(d)) => expanded_target(c, d.raw) matches Ok(t) && expand_key_spec(c2, key)
                == expansion(t, d.coercion) && expansion(t, d.coercion) is Ok,
            _ => false,
        },
{
    let d = decode_term(v)->Ok_0;
    let t = expanded_target(c, d.raw)->Ok_0;
    let b = BindingView { target: t, prefix: d.prefix, coercion: d.coercion, protected: d.protected };
    lemma_put(c.terms, key, b, key);
}

/// Installing a definition never changes a protected term: the definition either agrees
/// with it or is refused.
pub proof fn lemma_protected_term_survives_definition(c: ContextView, key: Seq<char>, v: TermView, other: Seq<char>)
    requires
        lookup(c.terms, other) matches Some(old) && old.protected,
        install_spec(c, key, v) is Ok,
    ensures
        lookup(install_spec(c, key, v)->Ok_0.terms, other) == lookup(c.terms, other),
{
    let d = decode_term(v)->Ok_0;
    let t = expanded_target(c, d.raw)->Ok_0;
    let b = BindingView { target: t, prefix: d.prefix, coercion: d.coercion, protected: d.protected };
    lemma_put(c.terms, key, b, other);
}

proof fn lemma_apply_from_keeps_protected(
    t: Seq<(Seq<char>, BindingView)>,
    imp: Seq<(Seq<char>, BindingView)>,
    i: int,
    other: Seq<char>,
)
    requires
        0 <= i,
        lookup(t, other) matches Some(old) && old.protected,
        apply_from(t, imp, i) is Ok,
    ensures
        lookup(apply_from(t, imp, i)->Ok_0, other) == lookup(t, other),
    decreases imp.len() - i,
{
    if i < imp.len() {
        let next = put(t, imp[i].0, imp[i].1);
        lemma_put(t, imp[i].0, imp[i].1, other);
        lemma_apply_from_keeps_protected(next, imp, i + 1, other);
    }
}

/// Applying imports never changes a protected term of the scope they are applied over.
pub proof fn lemma_protected_term_survives_imports(c: ContextView, imp: ContextView, other: Seq<char>)
    requires
        lookup(c.terms, other) matches Some(old) && old.protected,
        apply_imports_spec(c, imp) is Ok,
    ensures
        lookup(apply_imports_spec(c, imp)->Ok_0.terms, other) == lookup(c.terms, other),
{
    lemma_apply_from_keeps_protected(c.terms, imp.terms, 0, other);
}

/// Only an import that declares a vocabulary changes the scope's vocabulary: imports
/// without `@vocab` keep the vocabulary of the scope they are applied over, and imports with
/// one install theirs.
pub proof fn lemma_imports_change_vocab_only_by_declaring_one(c: ContextView, imp: ContextView)
    requires
        apply_imports_spec(c, imp) is Ok,
    ensures
        imp.vocab is None ==> apply_imports_spec(c, imp)->Ok_0.vocab == c.vocab,
        imp.vocab is Some ==> apply_imports_spec(c, imp)->Ok_0.vocab == imp.vocab,
{
}

/// The binding of `k` after the first `i` imports: theirs when one of them binds `k`, the
/// scope's otherwise.
pub open spec fn imported_binding(
    t0: Seq<(Seq<char>, BindingView)>,
    imp: Seq<(Seq<char>, BindingView)>,
    k: Seq<char>,
) -> Option<BindingView> {
    match lookup(imp, k) {
        Some(b) => Some(b),
        None => lookup(t0, k),
    }
}

proof fn lemma_apply_from_lookup(
    t0: Seq<(Seq<char>, BindingView)>,
    t: Seq<(Seq<char>, BindingView)>,
    imp: Seq<(Seq<char>, BindingView)>,
    i: int,
    k: Seq<char>,
)
    requires
        sorted_keys(imp),
        0 <= i <= imp.len(),
        apply_from(t, imp, i) is Ok,
        lookup(t, k) == imported_binding(t0, imp.take(i), k),
    ensures
        lookup(apply_from(t, imp, i)->Ok_0, k) == imported_binding(t0, imp, k),
    decreases imp.len() - i,
{
    if i < imp.len() {
        let next = put(t, imp[i].0, imp[i].1);
        lemma_put(t, imp[i].0, imp[i].1, k);
        lemma_lookup_take_step(imp, i, k);
        lemma_apply_from_lookup(t0, next, imp, i + 1, k);
    } else {
        assert(imp.take(i) =~= imp);
    }
}

/// Applying imports binds every key the imports define to the imports' binding, and leaves
/// every other key as the scope had it.
pub proof fn lemma_imports_bind_their_terms(c: ContextView, imp: ContextView, k: Seq<char>)
    requires
        apply_imports_spec(c, imp) is Ok,
        sorted_keys(imp.terms),
    ensures
        lookup(apply_imports_spec(c, imp)->Ok_0.terms, k) == match lookup(imp.terms, k) {
            Some(b) => Some(b),
            None => lookup(c.terms, k),
        },
{
    assert(imp.terms.take(0) =~= Seq::<(Seq<char>, BindingView)>::empty());
    lemma_apply_from_lookup(c.terms, c.terms, imp.terms, 0, k);
}

/// A resource enters an import closure at most once: a second import of it, in the same
/// resolution, is refused.
pub proof fn lemma_import_once(st: ImportStateView, identity: Seq<char>)
    requires
        begin_spec(st, identity) is Ok,
    ensures
        begin_spec(begin_spec(st, identity)->Ok_0, identity) is Err,
{
    let st2 = begin_spec(st, identity)->Ok_0;
    assert(st2.seen[st2.seen.len() - 1] == identity);
}

/// A part that a normalized path keeps: nonempty, neither `.` nor `..`, without `/`.
pub open spec fn clean_part(p: Seq<char>) -> bool {
    p.len() > 0 && p != "."@ && p != ".."@ && !p.contains('/')
}

/// A part that normalization skips.
pub open spec fn skipped_part(p: Seq<char>) -> bool {
    p.len() == 0 || p == "."@
}

proof fn lemma_split_parts_plain(s: Seq<char>, sep: char)
    ensures
        forall|i: int| 0 <= i < crate::text::split(s, sep).len() ==> !(#[trigger] crate::text::split(s, sep)[i]).contains(sep),
    decreases s.len(),
{
    if s.len() > 0 {
        lemma_split_parts_plain(s.drop_last(), sep);
        crate::text::lemma_split_len(s.drop_last(), sep);
        let init = crate::text::split(s.drop_last(), sep);
        if s.last() != sep {
            let grown = init.last().push(s.last());
            assert forall|k: int| 0 <= k < grown.len() implies grown[k] != sep by {
                if k < init.last().len() {
                    assert(grown[k] == init.last()[k]);
                    assert(init[init.len() - 1] == init.last());
                }
            }
        }
    }
}

proof fn lemma_stack_clean(parts: Seq<Seq<char>>)
    requires
        forall|i: int| 0 <= i < parts.len() ==> !(#[trigger] parts[i]).contains('/'),
        lexical_stack(parts) is Some,
    ensures
        forall|i: int| 0 <= i < lexical_stack(parts)->Some_0.len() ==> clean_part(
            #[trigger] lexical_stack(parts)->Some_0[i],
        ),
    decreases parts.len(),
{
    if parts.len() > 0 {
        let init = parts.drop_last();
        assert forall|i: int| 0 <= i < init.len() implies !(#[trigger] init[i]).contains('/') by {
            assert(init[i] == parts[i]);
        }
        lemma_stack_clean(init);
        assert(parts[parts.len() - 1] == parts.last());
    }
}

proof fn lemma_skipped_then_clean(q: Seq<Seq<char>>, st: Seq<Seq<char>>)
    requires
        forall|i: int| 0 <= i < q.len() ==> skipped_part(#[trigger] q[i]),
        forall|i: int| 0 <= i < st.len() ==> clean_part(#[trigger] st[i]),
    ensures
        lexical_stack(q + st) == Some(st),
    decreases q.len() + st.len(),
{
    if st.len() > 0 {
        assert((q + st).drop_last() =~= q + st.drop_last());
        assert((q + st).last() == st.last());
        assert(st[st.len() - 1] == st.last());
        lemma_skipped_then_clean(q, st.drop_last());
        assert(st.drop_last().push(st.last()) =~= st);
    } else if q.len() > 0 {
        assert(q + st =~= q);
        assert(q.drop_last() + st =~= q.drop_last());
        assert(q[q.len() - 1] == q.last());
        lemma_skipped_then_clean(q.drop_last(), st);
    } else {
        assert(q + st =~= Seq::<Seq<char>>::empty());
    }
}

/// Normalizing a normalized path changes nothing.
pub proof fn lemma_lexical_path_idempotent(path: Seq<char>)
    requires
        lexical_path(path) is Some,
    ensures
        lexical_path(lexical_path(path)->Some_0) == lexical_path(path),
{
    let parts = crate::text::split(path, '/');
    lemma_split_parts_plain(path, '/');
    lemma_stack_clean(parts);
    let st = lexical_stack(parts)->Some_0;
    let joined = crate::text::join(st, seq!['/']);
    let n = lexical_path(path)->Some_0;
    reveal_strlit(".");
    reveal_strlit("..");
    let empty = Seq::<char>::empty();
    if st.len() > 0 {
        crate::text::lemma_join_cons(st[0], st.drop_first(), seq!['/']);
        assert(seq![st[0]] + st.drop_first() =~= st);
        assert(joined.len() > 0 && joined[0] == st[0][0]);
        assert(st[0][0] != '/') by {
            assert(st[0].contains(st[0][0]));
        }
    }
    if path.len() > 0 && path[0] == '/' {
        if st.len() == 0 {
            assert(n =~= seq!['/']);
            assert(n =~= empty.push('/'));
            crate::text::lemma_split_append_sep(empty, '/');
            assert(crate::text::split(empty, '/') =~= seq![empty]);
            let q = seq![empty, empty];
            assert(crate::text::split(n, '/') =~= q);
            lemma_skipped_then_clean(q, st);
            assert(q + st =~= q);
        } else {
            let whole = seq![empty] + st;
            crate::text::lemma_join_cons(empty, st, seq!['/']);
            assert(crate::text::join(whole, seq!['/']) =~= n);
            assert forall|i: int| 0 <= i < whole.len() implies !(#[trigger] whole[i]).contains('/') by {
                if i > 0 {
                    assert(whole[i] == st[i - 1]);
                }
            }
            crate::text::lemma_split_join(whole, '/');
            lemma_skipped_then_clean(seq![empty], st);
        }
    } else if joined.len() == 0 {
        assert(n =~= seq!['.']);
        let dot = seq!['.'];
        crate::text::lemma_split_append_plain(empty, dot, '/');
        assert(empty + dot =~= dot);
        assert(crate::text::split(empty, '/') =~= seq![empty]);
        assert(crate::text::split(dot, '/') =~= seq![dot]);
        assert(dot == "."@);
        lemma_skipped_then_clean(seq![dot], Seq::<Seq<char>>::empty());
        assert(seq![dot] + Seq::<Seq<char>>::empty() =~= seq![dot]);
    } else {
        assert(st.len() > 0);
        assert forall|i: int| 0 <= i < st.len() implies !(#[trigger] st[i]).contains('/') by {}
        crate::text::lemma_split_join(st, '/');
        lemma_skipped_then_clean(Seq::<Seq<char>>::empty(), st);
        assert(Seq::<Seq<char>>::empty() + st =~= st);
    }
}

// ---------------------------------------------------------------------------
// Inline spelling of a scope
// ---------------------------------------------------------------------------

/// How one binding is written in an inline context: its target alone when it is a plain
/// term, otherwise a definition with `@id` and whichever of `@prefix`, `@protected` and
/// `@type` it needs.
pub open spec fn binding_json(b: BindingView) -> JsonView {
    if !b.prefix && !b.protected && b.coercion == Coercion::Plain {
        JsonView::Str(b.target)
    } else {
        JsonView::Object(
            seq![("@id"@, JsonView::Str(b.target))] + (if b.prefix {
                seq![("@prefix"@, JsonView::Bool(true))]
            } else {
                Seq::<(Seq<char>, JsonView)>::empty()
            }) + (if b.protected {
                seq![("@protected"@, JsonView::Bool(true))]
            } else {
                Seq::<(Seq<char>, JsonView)>::empty()
            }) + match b.coercion {
                Coercion::Plain => Seq::<(Seq<char>, JsonView)>::empty(),
                Coercion::NodeId => seq![("@type"@, JsonView::Str("@id"@))],
                Coercion::Json => seq![("@type"@, JsonView::Str("@json"@))],
            },
        )
    }
}

/// A scope's self-contained inline context: `@vocab` when it has one, then each term in key
/// order, imported aliases already expanded to their targets.
pub open spec fn inline_context_json(c: ContextView) -> JsonView {
    JsonView::Object(
        (match c.vocab {
            Some(v) => seq![("@vocab"@, JsonView::Str(v))],
            None => Seq::<(Seq<char>, JsonView)>::empty(),
        }) + c.terms.map_values(|t: (Seq<char>, BindingView)| (t.0, binding_json(t.1))),
    )
}

impl Binding {
    /// How this binding is written in an inline context.
    pub fn to_inline_value(&self) -> (r: JsonValue)
        ensures
            r@ == binding_json(self@),
    {
        if !self.prefix && !self.protected && self.coercion == Coercion::Plain {
            return JsonValue::Str(self.target.clone());
        }
        let mut definition: Vec<(String, JsonValue)> = Vec::new();
        assert(crate::json::member_views(definition@) =~= Seq::<(Seq<char>, JsonView)>::empty());
        push_member(&mut definition, "@id", JsonValue::Str(self.target.clone()));
        let ghost after_id = crate::json::member_views(definition@);
        if self.prefix {
            push_member(&mut definition, "@prefix", JsonValue::Bool(true));
        }
        let ghost after_prefix = crate::json::member_views(definition@);
        if self.protected {
            push_member(&mut definition, "@protected", JsonValue::Bool(true));
        }
        let ghost after_protected = crate::json::member_views(definition@);
        match self.coercion {
            Coercion::Plain => {},
            Coercion::NodeId => {
                push_member(&mut definition, "@type", JsonValue::Str("@id".to_string()));
            },
            Coercion::Json => {
                push_member(&mut definition, "@type", JsonValue::Str("@json".to_string()));
            },
        }
        let ghost b = self@;
        assert(crate::json::member_views(definition@) =~= seq![("@id"@, JsonView::Str(b.target))] + (if b.prefix {
            seq![("@prefix"@, JsonView::Bool(true))]
        } else {
            Seq::<(Seq<char>, JsonView)>::empty()
        }) + (if b.protected {
            seq![("@protected"@, JsonView::Bool(true))]
        } else {
            Seq::<(Seq<char>, JsonView)>::empty()
        }) + match b.coercion {
            Coercion::Plain => Seq::<(Seq<char>, JsonView)>::empty(),
            Coercion::NodeId => seq![("@type"@, JsonView::Str("@id"@))],
            Coercion::Json => seq![("@type"@, JsonView::Str("@json"@))],
        });
        JsonValue::Object(definition)
    }
}

impl EffectiveContext {
    /// A self-contained authored spelling of the effective bindings. Imported aliases are
    /// expanded to their canonical targets, so a writer can carry the same scope without
    /// access to the import workspace.
    pub fn to_inline_value(&self) -> (r: JsonValue)
        ensures
            r@ == inline_context_json(self@),
    {
        let mut inline: Vec<(String, JsonValue)> = Vec::new();
        assert(crate::json::member_views(inline@) =~= Seq::<(Seq<char>, JsonView)>::empty());
        match &self.vocab {
            Some(v) => {
                push_member(&mut inline, "@vocab", JsonValue::Str(v.clone()));
            },
            None => {},
        }
        let ghost head = crate::json::member_views(inline@);
        let ghost want = self@.terms.map_values(|t: (Seq<char>, BindingView)| (t.0, binding_json(t.1)));
        let mut i: usize = 0;
        assert(crate::json::member_views(inline@) =~= head + want.take(0));
        while i < self.terms.len()
            invariant
                i <= self.terms@.len(),
                want == self@.terms.map_values(|t: (Seq<char>, BindingView)| (t.0, binding_json(t.1))),
                self@.terms == term_views(self.terms@),
                crate::json::member_views(inline@) == head + want.take(i as int),
            decreases self.terms.len() - i,
        {
            let value = self.terms[i].1.to_inline_value();
            let key = self.terms[i].0.clone();
            let ghost before = inline@;
            proof {
                crate::json::lemma_member_views_push(before, key, value);
            }
            inline.push((key, value));
            assert(want.take(i as int + 1) =~= want.take(i as int).push(want[i as int]));
            i = i + 1;
        }
        assert(want.take(i as int) =~= want);
        assert(crate::json::member_views(inline@) =~= (match self@.vocab {
            Some(v) => seq![("@vocab"@, JsonView::Str(v))],
            None => Seq::<(Seq<char>, JsonView)>::empty(),
        }) + want);
        JsonValue::Object(inline)
    }
}

} // verus!
