//! Document ownership and the descriptive claims made about where a fact came from.

use crate::metadata::context::{key_less, key_lt, lemma_key_order};
use crate::metadata::term::{Fact, FactView};
use crate::metadata::MetadataError;
use crate::node_address::{NodeUri, UriView};
use crate::text::str_eq;
use vstd::prelude::*;

verus! {

/// Stable identity of the containing document, supplied by its reader.
///
/// This is deliberately separate from a [`NodeUri`]: a graph statement may describe a node
/// in another artifact while its own document retains ownership.
#[derive(Debug, Clone, PartialEq, Eq, PartialOrd, Ord)]
pub struct DocumentId(String);

impl View for DocumentId {
    type V = Seq<char>;

    closed spec fn view(&self) -> Seq<char> {
        self.0@
    }
}

impl DocumentId {
    /// A document identity from a nonempty reader-provided ID.
    pub fn new(id: String) -> (r: Result<DocumentId, MetadataError>)
        ensures
            match r {
                Ok(d) => id@.len() > 0 && d@ == id@,
                Err(e) => id@.len() == 0 && e == MetadataError::EmptyDocumentId,
            },
    {
        if id.as_str().is_empty() {
            Err(MetadataError::EmptyDocumentId)
        } else {
            Ok(DocumentId(id))
        }
    }

    /// The reader-provided stable identifier.
    pub fn as_str(&self) -> (r: &str)
        ensures
            r@ == self@,
    {
        self.0.as_str()
    }
}

/// The semantic container where a document authored a fact.
#[derive(Debug, Clone, PartialEq, Eq)]
pub enum Carrier {
    /// A Type or Value node's `attributes.facts` container.
    AttributesFacts(NodeUri),
    /// A specification node's `annotations.facts` container.
    AnnotationsFacts(NodeUri),
    /// The containing document's `$meta.@graph` container.
    DocumentGraph,
    /// One decorator sidecar entry once its target and value have been validated.
    Sidecar {
        /// The entry's addressed target node.
        target: NodeUri,
        /// The entry point declaration that supplies its projected predicate.
        entry_point: NodeUri,
    },
}

/// A descriptive source claim; these labels do not prove authorship.
#[derive(Debug, Clone, PartialEq, Eq, PartialOrd, Ord)]
pub enum AssertionSource {
    /// Ordinary provenance from the containing document.
    Document(DocumentId),
    /// An optional compiler producer and source reference.
    Compiler {
        /// Producer name supplied by the writer.
        producer: String,
        /// Optional source location or producer reference.
        reference: Option<String>,
    },
    /// An optional human author reference.
    Author {
        /// Writer-supplied reference, not an authenticated identity.
        reference: String,
    },
}

impl DocumentId {
    /// An identity equal to this one.
    pub fn duplicate(&self) -> (r: DocumentId)
        ensures
            r@ == self@,
    {
        DocumentId(self.0.clone())
    }
}

/// A carrier as plain values.
pub enum CarrierView {
    AttributesFacts(UriView),
    AnnotationsFacts(UriView),
    DocumentGraph,
    Sidecar { target: UriView, entry_point: UriView },
}

impl View for Carrier {
    type V = CarrierView;

    open spec fn view(&self) -> CarrierView {
        match self {
            Carrier::AttributesFacts(u) => CarrierView::AttributesFacts(u@),
            Carrier::AnnotationsFacts(u) => CarrierView::AnnotationsFacts(u@),
            Carrier::DocumentGraph => CarrierView::DocumentGraph,
            Carrier::Sidecar { target, entry_point } => CarrierView::Sidecar {
                target: target@,
                entry_point: entry_point@,
            },
        }
    }
}

/// Whether a carrier may hold a fact about `subject`: a node-local carrier and a sidecar
/// describe their own node; the document graph may describe any node.
pub open spec fn carrier_admits(c: CarrierView, subject: UriView) -> bool {
    match c {
        CarrierView::AttributesFacts(u) => u == subject,
        CarrierView::AnnotationsFacts(u) => u == subject,
        CarrierView::Sidecar { target, .. } => target == subject,
        CarrierView::DocumentGraph => true,
    }
}

/// An authored assertion's alias-independent identity.
#[derive(Debug, PartialEq, Eq)]
pub struct AssertionKey {
    owner: DocumentId,
    carrier: Carrier,
    fact: Fact,
}

/// An assertion key as plain values.
pub struct KeyView {
    pub owner: Seq<char>,
    pub carrier: CarrierView,
    pub fact: FactView,
}

impl View for AssertionKey {
    type V = KeyView;

    closed spec fn view(&self) -> KeyView {
        KeyView { owner: self.owner@, carrier: self.carrier@, fact: self.fact@ }
    }
}

impl AssertionKey {
    /// Bind an expanded fact to its owning document and semantic carrier. A node-local
    /// fact must use its enclosing node as subject; a document graph can assert a fact
    /// about any explicitly addressed node.
    pub fn new(owner: DocumentId, carrier: Carrier, fact: Fact) -> (r: Result<AssertionKey, MetadataError>)
        ensures
            match r {
                Ok(k) => carrier_admits(carrier@, fact@.subject) && k@ == (KeyView {
                    owner: owner@,
                    carrier: carrier@,
                    fact: fact@,
                }),
                Err(e) => !carrier_admits(carrier@, fact@.subject) && e == MetadataError::CarrierSubjectMismatch,
            },
    {
        let admitted = match &carrier {
            Carrier::AttributesFacts(u) => u.same_as(fact.subject()),
            Carrier::AnnotationsFacts(u) => u.same_as(fact.subject()),
            Carrier::Sidecar { target, .. } => target.same_as(fact.subject()),
            Carrier::DocumentGraph => true,
        };
        if admitted {
            Ok(AssertionKey { owner, carrier, fact })
        } else {
            Err(MetadataError::CarrierSubjectMismatch)
        }
    }

    /// The document that contains this assertion.
    pub fn owner(&self) -> (r: &DocumentId)
        ensures
            r@ == self@.owner,
    {
        &self.owner
    }

    /// The authored semantic container.
    pub fn carrier(&self) -> (r: &Carrier)
        ensures
            r@ == self@.carrier,
    {
        &self.carrier
    }

    /// The expanded graph fact.
    pub fn fact(&self) -> (r: &Fact)
        ensures
            r@ == self@.fact,
    {
        &self.fact
    }
}

/// A source claim as plain values.
pub enum SourceView {
    Document(Seq<char>),
    Compiler { producer: Seq<char>, reference: Option<Seq<char>> },
    Author { reference: Seq<char> },
}

impl View for AssertionSource {
    type V = SourceView;

    open spec fn view(&self) -> SourceView {
        match self {
            AssertionSource::Document(d) => SourceView::Document(d@),
            AssertionSource::Compiler { producer, reference } => SourceView::Compiler {
                producer: producer@,
                reference: match reference {
                    Some(r) => Some(r@),
                    None => None,
                },
            },
            AssertionSource::Author { reference } => SourceView::Author { reference: reference@ },
        }
    }
}

pub open spec fn source_views(s: Seq<AssertionSource>) -> Seq<SourceView> {
    s.map_values(|x: AssertionSource| x@)
}

/// The position of a claim's kind in the order of claims.
pub open spec fn source_rank(s: SourceView) -> int {
    match s {
        SourceView::Document(_) => 0,
        SourceView::Compiler { .. } => 1,
        SourceView::Author { .. } => 2,
    }
}

/// The order of optional references: none first, then by text.
pub open spec fn reference_lt(a: Option<Seq<char>>, b: Option<Seq<char>>) -> bool {
    match (a, b) {
        (None, Some(_)) => true,
        (Some(x), Some(y)) => key_lt(x, y),
        _ => false,
    }
}

/// The order claims are kept in: by kind (document, compiler, author), then by their text
/// field by field, each text in character order.
pub open spec fn source_lt(a: SourceView, b: SourceView) -> bool {
    if source_rank(a) != source_rank(b) {
        source_rank(a) < source_rank(b)
    } else {
        match (a, b) {
            (SourceView::Document(x), SourceView::Document(y)) => key_lt(x, y),
            (
                SourceView::Compiler { producer: p, reference: r },
                SourceView::Compiler { producer: q, reference: t },
            ) => key_lt(p, q) || (p == q && reference_lt(r, t)),
            (SourceView::Author { reference: x }, SourceView::Author { reference: y }) => key_lt(x, y),
            _ => false,
        }
    }
}

/// The order of claims is a strict total order.
pub proof fn lemma_source_order(a: SourceView, b: SourceView, c: SourceView)
    ensures
        !source_lt(a, a),
        source_lt(a, b) ==> !source_lt(b, a),
        a != b ==> source_lt(a, b) || source_lt(b, a),
        source_lt(a, b) && source_lt(b, c) ==> source_lt(a, c),
{
    match (a, b, c) {
        (SourceView::Document(x), SourceView::Document(y), SourceView::Document(z)) => {
            lemma_key_order(x, y, z);
        },
        (SourceView::Author { reference: x }, SourceView::Author { reference: y }, SourceView::Author { reference: z }) => {
            lemma_key_order(x, y, z);
        },
        (
            SourceView::Compiler { producer: p, reference: r },
            SourceView::Compiler { producer: q, reference: t },
            SourceView::Compiler { producer: w, reference: v },
        ) => {
            lemma_key_order(p, q, w);
            lemma_key_order(p, p, p);
            match (r, t, v) {
                (Some(x), Some(y), Some(z)) => lemma_key_order(x, y, z),
                (Some(x), Some(y), None) => lemma_key_order(x, y, y),
                (Some(x), None, Some(z)) => lemma_key_order(x, z, z),
                (None, Some(y), Some(z)) => lemma_key_order(y, z, z),
                (Some(x), None, None) => lemma_key_order(x, x, x),
                (None, Some(y), None) => lemma_key_order(y, y, y),
                (None, None, Some(z)) => lemma_key_order(z, z, z),
                (None, None, None) => {},
            }
        },
        _ => {
            match a {
                SourceView::Document(x) => lemma_key_order(x, x, x),
                SourceView::Compiler { producer: p, reference: r } => {
                    lemma_key_order(p, p, p);
                    if let Some(x) = r {
                        lemma_key_order(x, x, x);
                    }
                },
                SourceView::Author { reference: x } => lemma_key_order(x, x, x),
            }
            match (a, b) {
                (SourceView::Document(x), SourceView::Document(y)) => lemma_key_order(x, y, y),
                (SourceView::Author { reference: x }, SourceView::Author { reference: y }) => lemma_key_order(x, y, y),
                (
                    SourceView::Compiler { producer: p, reference: r },
                    SourceView::Compiler { producer: q, reference: t },
                ) => {
                    lemma_key_order(p, q, q);
                    if let (Some(x), Some(y)) = (r, t) {
                        lemma_key_order(x, y, y);
                    }
                },
                _ => {},
            }
            match (b, c) {
                (SourceView::Document(x), SourceView::Document(y)) => lemma_key_order(x, y, y),
                (SourceView::Author { reference: x }, SourceView::Author { reference: y }) => lemma_key_order(x, y, y),
                (
                    SourceView::Compiler { producer: p, reference: r },
                    SourceView::Compiler { producer: q, reference: t },
                ) => {
                    lemma_key_order(p, q, q);
                    if let (Some(x), Some(y)) = (r, t) {
                        lemma_key_order(x, y, y);
                    }
                },
                _ => {},
            }
            match (a, c) {
                (SourceView::Document(x), SourceView::Document(y)) => lemma_key_order(x, y, y),
                (SourceView::Author { reference: x }, SourceView::Author { reference: y }) => lemma_key_order(x, y, y),
                (
                    SourceView::Compiler { producer: p, reference: r },
                    SourceView::Compiler { producer: q, reference: t },
                ) => {
                    lemma_key_order(p, q, q);
                    if let (Some(x), Some(y)) = (r, t) {
                        lemma_key_order(x, y, y);
                    }
                },
                _ => {},
            }
        },
    }
}

/// Whether claims are in strictly increasing order, so none repeats.
pub open spec fn strictly_sorted(s: Seq<SourceView>) -> bool {
    forall|i: int, j: int| 0 <= i < j < s.len() ==> source_lt(#[trigger] s[i], #[trigger] s[j])
}

/// Two strictly sorted lists of claims with the same members are the same list.
pub proof fn lemma_sorted_by_members(s: Seq<SourceView>, t: Seq<SourceView>)
    requires
        strictly_sorted(s),
        strictly_sorted(t),
        s.to_set() == t.to_set(),
    ensures
        s == t,
    decreases s.len() + t.len(),
{
    if s.len() == 0 || t.len() == 0 {
        if s.len() > 0 {
            assert(s.to_set().contains(s[0]));
        }
        if t.len() > 0 {
            assert(t.to_set().contains(t[0]));
        }
        assert(s =~= t);
    } else {
        let (a, b) = (s[0], t[0]);
        assert(s.to_set().contains(a));
        assert(t.to_set().contains(b));
        let j = choose|j: int| 0 <= j < t.len() && t[j] == a;
        let i = choose|i: int| 0 <= i < s.len() && s[i] == b;
        lemma_source_order(a, b, a);
        if a != b {
            if j > 0 {
                assert(source_lt(t[0], t[j]));
            }
            if i > 0 {
                assert(source_lt(s[0], s[i]));
            }
            assert(false);
        }
        let s1 = s.drop_first();
        let t1 = t.drop_first();
        assert forall|x: SourceView| s1.to_set().contains(x) implies t1.to_set().contains(x) by {
            let k = choose|k: int| 0 <= k < s1.len() && s1[k] == x;
            assert(s[k + 1] == x);
            assert(source_lt(s[0], s[k + 1]));
            lemma_source_order(a, x, a);
            assert(t.to_set().contains(x));
            let m = choose|m: int| 0 <= m < t.len() && t[m] == x;
            assert(m != 0);
            assert(t1[m - 1] == x);
        }
        assert forall|x: SourceView| t1.to_set().contains(x) implies s1.to_set().contains(x) by {
            let k = choose|k: int| 0 <= k < t1.len() && t1[k] == x;
            assert(t[k + 1] == x);
            assert(source_lt(t[0], t[k + 1]));
            lemma_source_order(a, x, a);
            assert(s.to_set().contains(x));
            let m = choose|m: int| 0 <= m < s.len() && s[m] == x;
            assert(m != 0);
            assert(s1[m - 1] == x);
        }
        assert(s1.to_set() =~= t1.to_set());
        assert forall|p: int, q: int| 0 <= p < q < s1.len() implies source_lt(#[trigger] s1[p], #[trigger] s1[q]) by {
            assert(s1[p] == s[p + 1] && s1[q] == s[q + 1]);
        }
        assert forall|p: int, q: int| 0 <= p < q < t1.len() implies source_lt(#[trigger] t1[p], #[trigger] t1[q]) by {
            assert(t1[p] == t[p + 1] && t1[q] == t[q + 1]);
        }
        lemma_sorted_by_members(s1, t1);
        assert(s =~= seq![a] + s1);
        assert(t =~= seq![b] + t1);
    }
}

/// A claim is added once: adding a claim the detail already holds leaves the detail as it
/// was, since claims are kept strictly in order.
pub proof fn lemma_claim_added_once(before: Seq<SourceView>, after: Seq<SourceView>, claim: SourceView)
    requires
        strictly_sorted(before),
        strictly_sorted(after),
        before.contains(claim),
        after.to_set() == before.to_set().insert(claim),
    ensures
        after == before,
{
    assert(before.to_set().insert(claim) =~= before.to_set());
    lemma_sorted_by_members(after, before);
}

impl AssertionSource {
    /// A claim equal to this one.
    pub fn duplicate(&self) -> (r: AssertionSource)
        ensures
            r@ == self@,
    {
        match self {
            AssertionSource::Document(d) => AssertionSource::Document(d.duplicate()),
            AssertionSource::Compiler { producer, reference } => AssertionSource::Compiler {
                producer: producer.clone(),
                reference: match reference {
                    Some(r) => Some(r.clone()),
                    None => None,
                },
            },
            AssertionSource::Author { reference } => AssertionSource::Author { reference: reference.clone() },
        }
    }

    /// Whether two claims are the same claim.
    pub fn same_as(&self, other: &AssertionSource) -> (r: bool)
        ensures
            r == (self@ == other@),
    {
        match (self, other) {
            (AssertionSource::Document(a), AssertionSource::Document(b)) => str_eq(a.as_str(), b.as_str()),
            (
                AssertionSource::Compiler { producer: p, reference: r },
                AssertionSource::Compiler { producer: q, reference: t },
            ) => {
                let same_reference = match (r, t) {
                    (Some(x), Some(y)) => str_eq(x.as_str(), y.as_str()),
                    (None, None) => true,
                    _ => false,
                };
                str_eq(p.as_str(), q.as_str()) && same_reference
            },
            (AssertionSource::Author { reference: a }, AssertionSource::Author { reference: b }) => str_eq(
                a.as_str(),
                b.as_str(),
            ),
            _ => false,
        }
    }

    /// Whether this claim sorts before `other`.
    pub fn sorts_before(&self, other: &AssertionSource) -> (r: bool)
        ensures
            r == source_lt(self@, other@),
    {
        match (self, other) {
            (AssertionSource::Document(a), AssertionSource::Document(b)) => key_less(a.as_str(), b.as_str()),
            (
                AssertionSource::Compiler { producer: p, reference: r },
                AssertionSource::Compiler { producer: q, reference: t },
            ) => {
                if key_less(p.as_str(), q.as_str()) {
                    true
                } else if !str_eq(p.as_str(), q.as_str()) {
                    false
                } else {
                    match (r, t) {
                        (None, Some(_)) => true,
                        (Some(x), Some(y)) => key_less(x.as_str(), y.as_str()),
                        _ => false,
                    }
                }
            },
            (AssertionSource::Author { reference: a }, AssertionSource::Author { reference: b }) => key_less(
                a.as_str(),
                b.as_str(),
            ),
            (AssertionSource::Document(_), _) => true,
            (AssertionSource::Compiler { .. }, AssertionSource::Author { .. }) => true,
            _ => false,
        }
    }
}

/// One authored assertion and its extra source claims.
#[derive(Debug, PartialEq, Eq)]
pub struct Assertion {
    key: AssertionKey,
    detail: Vec<AssertionSource>,
}

impl Assertion {
    /// The assertion's key.
    pub closed spec fn key_view(&self) -> KeyView {
        self.key@
    }

    /// Its extra claims, in order.
    pub closed spec fn detail_views(&self) -> Seq<SourceView> {
        source_views(self.detail@)
    }

    /// The extra claims are in strictly increasing order, and none is document provenance.
    pub closed spec fn wf(&self) -> bool {
        &&& strictly_sorted(self.detail_views())
        &&& forall|i: int| 0 <= i < self.detail_views().len() ==> !(#[trigger] self.detail_views()[i] is Document)
    }

    /// An assertion with ordinary document provenance only.
    pub fn new(key: AssertionKey) -> (r: Assertion)
        ensures
            r.wf(),
            r.key_view() == key@,
            r.detail_views() == Seq::<SourceView>::empty(),
    {
        let r = Assertion { key, detail: Vec::new() };
        assert(r.detail_views() =~= Seq::<SourceView>::empty());
        r
    }

    /// Its document, carrier and expanded fact identity.
    pub fn key(&self) -> (r: &AssertionKey)
        ensures
            r@ == self.key_view(),
    {
        &self.key
    }

    /// Additional persisted claims, excluding implicit document provenance.
    pub fn detail(&self) -> (r: &[AssertionSource])
        ensures
            source_views(r@) == self.detail_views(),
    {
        self.detail.as_slice()
    }

    /// Add a compiler or author claim once, keeping the claims in order. Document
    /// provenance comes only from the assertion owner and is refused as extra detail.
    pub fn add_detail(&mut self, source: AssertionSource) -> (r: Result<(), MetadataError>)
        requires
            old(self).wf(),
        ensures
            final(self).wf(),
            final(self).key_view() == old(self).key_view(),
            source@ is Document ==> r == Err::<(), MetadataError>(MetadataError::DocumentProvenanceIsImplicit)
                && final(self).detail_views() == old(self).detail_views(),
            !(source@ is Document) ==> r is Ok && final(self).detail_views().to_set() == old(
                self,
            ).detail_views().to_set().insert(source@),
    {
        if let AssertionSource::Document(_) = source {
            return Err(MetadataError::DocumentProvenanceIsImplicit);
        }
        let ghost dv = self.detail_views();
        let mut i: usize = 0;
        while i < self.detail.len() && self.detail[i].sorts_before(&source)
            invariant
                i <= self.detail@.len(),
                dv == source_views(self.detail@),
                forall|k: int| 0 <= k < i ==> source_lt(#[trigger] dv[k], source@),
            decreases self.detail.len() - i,
        {
            i = i + 1;
        }
        if i < self.detail.len() && self.detail[i].same_as(&source) {
            assert(dv.to_set().insert(source@) =~= dv.to_set()) by {
                assert(dv[i as int] == source@);
            }
            return Ok(());
        }
        proof {
            if i < dv.len() {
                lemma_source_order(dv[i as int], source@, source@);
            }
        }
        self.detail.insert(i, source);
        let ghost nv = self.detail_views();
        assert(nv =~= dv.insert(i as int, source@));
        assert forall|p: int, q: int| 0 <= p < q < nv.len() implies source_lt(#[trigger] nv[p], #[trigger] nv[q]) by {
            if q < i {
                assert(nv[p] == dv[p] && nv[q] == dv[q]);
            } else if q == i {
                assert(nv[p] == dv[p]);
            } else if p < i {
                assert(nv[p] == dv[p] && nv[q] == dv[q - 1]);
                lemma_source_order(dv[p], dv[i as int], dv[q - 1]);
                if q - 1 > i {
                    assert(source_lt(dv[i as int], dv[q - 1]));
                }
                lemma_source_order(dv[p], source@, dv[q - 1]);
                lemma_source_order(source@, dv[i as int], dv[q - 1]);
            } else if p == i {
                assert(nv[q] == dv[q - 1]);
                if q - 1 > i {
                    assert(source_lt(dv[i as int], dv[q - 1]));
                }
                lemma_source_order(source@, dv[i as int], dv[q - 1]);
            } else {
                assert(nv[p] == dv[p - 1] && nv[q] == dv[q - 1]);
            }
        }
        assert forall|k: int| 0 <= k < nv.len() implies !(#[trigger] nv[k] is Document) by {
            if k < i {
                assert(nv[k] == dv[k]);
            } else if k > i {
                assert(nv[k] == dv[k - 1]);
            }
        }
        assert(nv.to_set() =~= dv.to_set().insert(source@)) by {
            assert forall|x: SourceView| nv.to_set().contains(x) implies dv.to_set().insert(source@).contains(x) by {
                let k = choose|k: int| 0 <= k < nv.len() && nv[k] == x;
                if k < i {
                    assert(dv[k] == x);
                } else if k > i {
                    assert(dv[k - 1] == x);
                }
            }
            assert forall|x: SourceView| dv.to_set().insert(source@).contains(x) implies nv.to_set().contains(x) by {
                if x == source@ {
                    assert(nv[i as int] == x);
                } else {
                    let k = choose|k: int| 0 <= k < dv.len() && dv[k] == x;
                    if k < i {
                        assert(nv[k] == x);
                    } else {
                        assert(nv[k + 1] == x);
                    }
                }
            }
        }
        Ok(())
    }

    /// The claims visible to a query: the containing document first, then the extra
    /// claims in order.
    pub fn sources(&self) -> (r: Vec<AssertionSource>)
        requires
            self.wf(),
        ensures
            source_views(r@) == seq![SourceView::Document(self.key_view().owner)] + self.detail_views(),
    {
        let mut sources: Vec<AssertionSource> = Vec::new();
        sources.push(AssertionSource::Document(self.key.owner.duplicate()));
        let ghost dv = self.detail_views();
        let ghost head = SourceView::Document(self.key_view().owner);
        let mut i: usize = 0;
        assert(source_views(sources@) =~= seq![head] + dv.take(0));
        while i < self.detail.len()
            invariant
                i <= self.detail@.len(),
                dv == source_views(self.detail@),
                self.wf(),
                head == SourceView::Document(self.key_view().owner),
                source_views(sources@) == seq![head] + dv.take(i as int),
            decreases self.detail.len() - i,
        {
            let mut present = false;
            let mut j: usize = 0;
            while j < sources.len()
                invariant
                    j <= sources@.len(),
                    i < self.detail@.len(),
                    dv == source_views(self.detail@),
                    self.wf(),
                    head == SourceView::Document(self.key_view().owner),
                    source_views(sources@) == seq![head] + dv.take(i as int),
                    present == exists|k: int| 0 <= k < j && source_views(sources@)[k] == dv[i as int],
                decreases sources.len() - j,
            {
                assert(source_views(sources@)[j as int] == sources@[j as int]@);
                assert(dv[i as int] == self.detail@[i as int]@);
                if sources[j].same_as(&self.detail[i]) {
                    present = true;
                }
                j = j + 1;
            }
            proof {
                let sv = source_views(sources@);
                if present {
                    let k = choose|k: int| 0 <= k < sources@.len() && sv[k] == dv[i as int];
                    assert(sv.len() == i + 1);
                    if k == 0 {
                        assert(sv[0] == head);
                        assert(!(dv[i as int] is Document));
                    } else {
                        assert(sv[k] == dv.take(i as int)[k - 1]);
                        assert(sv[k] == dv[k - 1]);
                        assert(source_lt(dv[k - 1], dv[i as int]));
                        lemma_source_order(dv[k - 1], dv[i as int], dv[k - 1]);
                    }
                    assert(false);
                }
            }
            let x = self.detail[i].duplicate();
            let ghost before = sources@;
            sources.push(x);
            assert(source_views(sources@) =~= source_views(before).push(x@));
            assert(x@ == dv[i as int]);
            assert(dv.take(i as int + 1) =~= dv.take(i as int).push(dv[i as int]));
            assert(source_views(sources@) =~= seq![head] + dv.take(i as int + 1));
            i = i + 1;
        }
        assert(dv.take(i as int) =~= dv);
        sources
    }
}

} // verus!
