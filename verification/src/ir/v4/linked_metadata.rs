//! Authored metadata containers: a scope's context and fact properties, the explicitly
//! addressed subjects of a document graph, and the source claims a document can attach to
//! its assertions.
//!
//! These keep the authored spelling. Reading one checks its context against the context
//! grammar and its fact keys against that context, without loading any context resource and
//! without validating what a predicate means.

use crate::json::{
    copy_members, push_member, get_member, json_view, lemma_member_views, member_named, member_views, without_member, JsonValue, JsonView,
};
use crate::metadata::context::{
    empty_context_view, inline_spec, inline_views, reference_target,
    BaseView, ContextBase, ContextError, ContextErrorView, ContextResources, ContextView,
    EffectiveContext, ImportState, MemberValue, MemberView, TermValue, TermView,
};
use crate::metadata::context::{context_error_message, expand_key_spec, lexical_path, Coercion};
use crate::metadata::context::{
    binding_json, context_target, declares_prefix, decode_term, first_unknown_member, is_keyword_key,
    member_get, sorted_keys, valid_stem, valid_term_key, BindingView, Definition,
};
use crate::metadata::context::{
    expanded_target, first_keyword, inline_context_json, install_from, install_spec, lemma_lookup_sorted,
    lemma_lookup_take_step, lemma_put, lemma_sorted_lookup_eq, lookup, put, term_get,
};
use crate::node_address::{authority, has_prefix};
use crate::node_address::{parse_uri, uri_error_message, uri_spelling, NodeUri, UriErrorView, UriView};
use crate::text::{push_str_chars, str_eq, string_of};
use vstd::prelude::*;

verus! {

/// One document, compiler, or author source claim.
#[derive(Debug, Clone, PartialEq, Eq)]
pub enum SourceClaim {
    /// Explicitly include the containing document.
    Document,
    /// A compiler and optional source reference.
    Compiler { producer: String, reference: Option<String> },
    /// A human-supplied author reference.
    Author { reference: String },
}

// ---------------------------------------------------------------------------
// Authored contexts
// ---------------------------------------------------------------------------

/// What the grammar reads of one member of a term definition object.
pub open spec fn member_of(v: JsonView) -> MemberView {
    match v {
        JsonView::Str(s) => MemberView::Str(s),
        JsonView::Bool(b) => MemberView::Bool(b),
        _ => MemberView::Other,
    }
}

pub open spec fn member_seq(ms: Seq<(Seq<char>, JsonView)>) -> Seq<(Seq<char>, MemberView)> {
    ms.map_values(|m: (Seq<char>, JsonView)| (m.0, member_of(m.1)))
}

/// What the grammar reads of an authored term definition.
pub open spec fn term_of(v: JsonView) -> TermView {
    match v {
        JsonView::Str(s) => TermView::Str(s),
        JsonView::Object(ms) => TermView::Object(member_seq(ms)),
        _ => TermView::Other,
    }
}

pub open spec fn inline_terms(ms: Seq<(Seq<char>, JsonView)>) -> Seq<(Seq<char>, TermView)> {
    ms.map_values(|m: (Seq<char>, JsonView)| (m.0, term_of(m.1)))
}

/// The root an authored context's imports resolve under.
pub open spec fn authored_root() -> Seq<char> {
    match lexical_path("contexts"@) {
        Some(n) => n,
        None => "contexts"@,
    }
}

/// Why importing `reference` fails when no context resource is supplied: the reference is
/// refused, or the resource it names is unavailable.
pub open spec fn unsupplied_import(reference: Seq<char>) -> ContextErrorView {
    match reference_target(authored_root(), reference, BaseView::Workspace) {
        Err(e) => e,
        Ok((identity, _)) => ContextErrorView::ResourceUnavailable(identity),
    }
}

/// What an authored context resolves to with no context resource supplied: an inline
/// object is applied to the empty scope; an import, or a list that starts with one, cannot
/// be resolved; anything else is not a context.
pub open spec fn authored_context(v: JsonView) -> Result<ContextView, ContextErrorView> {
    match v {
        JsonView::Object(ms) => inline_spec(empty_context_view(), inline_terms(ms)),
        JsonView::Str(r) => Err(unsupplied_import(r)),
        JsonView::Array(items) => if items.len() > 0 && items[0] is Str {
            Err(unsupplied_import(items[0]->Str_0))
        } else {
            Err(ContextErrorView::InvalidForm)
        },
        _ => Err(ContextErrorView::InvalidForm),
    }
}

fn member_value(v: &JsonValue) -> (r: MemberValue)
    ensures
        r@ == member_of(v@),
{
    match v {
        JsonValue::Str(s) => MemberValue::Str(s.clone()),
        JsonValue::Bool(b) => MemberValue::Bool(*b),
        _ => MemberValue::Other,
    }
}

fn term_value(v: &JsonValue) -> (r: TermValue)
    ensures
        r@ == term_of(v@),
{
    match v {
        JsonValue::Str(s) => TermValue::Str(s.clone()),
        JsonValue::Object(ms) => {
            proof {
                lemma_member_views(ms@);
            }
            let mut out: Vec<(String, MemberValue)> = Vec::new();
            let mut i: usize = 0;
            while i < ms.len()
                invariant
                    i <= ms@.len(),
                    member_views(ms@).len() == ms@.len(),
                    forall|q: int| 0 <= q < ms@.len() ==> #[trigger] member_views(ms@)[q] == (ms@[q].0@, json_view(ms@[q].1)),
                    out@.len() == i,
                    forall|q: int| 0 <= q < i ==> (#[trigger] out@[q]).0@ == ms@[q].0@ && out@[q].1@ == member_of(json_view(ms@[q].1)),
                decreases ms.len() - i,
            {
                out.push((ms[i].0.clone(), member_value(&ms[i].1)));
                i = i + 1;
            }
            let r = TermValue::Object(out);
            assert(crate::metadata::context::member_views(out@) =~= member_seq(member_views(ms@)));
            r
        },
        _ => TermValue::Other,
    }
}

fn inline_members(ms: &Vec<(String, JsonValue)>) -> (r: Vec<(String, TermValue)>)
    ensures
        inline_views(r@) == inline_terms(member_views(ms@)),
{
    proof {
        lemma_member_views(ms@);
    }
    let mut out: Vec<(String, TermValue)> = Vec::new();
    let mut i: usize = 0;
    while i < ms.len()
        invariant
            i <= ms@.len(),
            member_views(ms@).len() == ms@.len(),
            forall|q: int| 0 <= q < ms@.len() ==> #[trigger] member_views(ms@)[q] == (ms@[q].0@, json_view(ms@[q].1)),
            out@.len() == i,
            forall|q: int| 0 <= q < i ==> (#[trigger] out@[q]).0@ == ms@[q].0@ && out@[q].1@ == term_of(json_view(ms@[q].1)),
        decreases ms.len() - i,
    {
        out.push((ms[i].0.clone(), term_value(&ms[i].1)));
        i = i + 1;
    }
    assert(inline_views(out@) =~= inline_terms(member_views(ms@)));
    out
}

/// The error importing `reference` meets when no context resource is supplied.
fn unsupplied_import_error(reference: &str) -> (e: ContextError)
    ensures
        e@ == unsupplied_import(reference@),
{
    let resources = ContextResources::new("contexts");
    match resources.import_target(reference, &ContextBase::Workspace) {
        Err(e) => e,
        Ok(target) => {
            let mut state = ImportState::new();
            match state.begin(target.identity.as_str()) {
                Err(e) => e,
                Ok(_) => match resources.load(&target, reference) {
                    Err(e) => e,
                    Ok(_) => {
                        assert(crate::metadata::context::resource_lookup(
                            resources@.loaded,
                            target.identity@,
                        ) is None);
                        ContextError::InvalidForm
                    },
                },
            }
        },
    }
}

/// Resolve an authored context with no context resource supplied.
pub fn resolve_authored_context(authored: &JsonValue) -> (r: Result<EffectiveContext, ContextError>)
    ensures
        match r {
            Ok(c) => authored_context(authored@) == Ok::<ContextView, ContextErrorView>(c@),
            Err(e) => authored_context(authored@) == Err::<ContextView, ContextErrorView>(e@),
        },
{
    match authored {
        JsonValue::Object(ms) => {
            let members = inline_members(ms);
            let mut c = EffectiveContext::new();
            assert(c@ == empty_context_view());
            match c.apply_inline(&members) {
                Ok(_) => Ok(c),
                Err(e) => Err(e),
            }
        },
        JsonValue::Str(r) => Err(unsupplied_import_error(r.as_str())),
        JsonValue::Array(items) => {
            proof {
                crate::json::lemma_item_views(items@);
            }
            if items.len() > 0 {
                match &items[0] {
                    JsonValue::Str(r) => {
                        return Err(unsupplied_import_error(r.as_str()));
                    },
                    _ => {},
                }
            }
            Err(ContextError::InvalidForm)
        },
        _ => Err(ContextError::InvalidForm),
    }
}

/// An authored context that the context grammar accepts, with the scope it resolves to.
#[derive(Debug, PartialEq)]
pub struct AuthoredContext {
    authored: JsonValue,
    effective: EffectiveContext,
}

impl AuthoredContext {
    pub closed spec fn authored_view(&self) -> JsonView {
        self.authored@
    }

    /// The scope the context resolves to.
    pub closed spec fn scope(&self) -> ContextView {
        self.effective@
    }

    /// Check an inline context without loading external resources; a refused context is
    /// refused with its error's message.
    pub fn parse(value: JsonValue) -> (r: Result<AuthoredContext, String>)
        ensures
            match r {
                Ok(a) => authored_context(value@) == Ok::<ContextView, ContextErrorView>(a.scope())
                    && a.authored_view() == value@,
                Err(m) => authored_context(value@) matches Err(e) && m@ == context_error_message(e),
            },
    {
        match resolve_authored_context(&value) {
            Ok(effective) => Ok(AuthoredContext { authored: value, effective }),
            Err(e) => Err(e.message()),
        }
    }

    /// The context as it was authored.
    pub fn authored(&self) -> (r: &JsonValue)
        ensures
            r@ == self.authored_view(),
    {
        &self.authored
    }

    /// The scope the context resolves to.
    pub fn effective(&self) -> (r: &EffectiveContext)
        ensures
            r@ == self.scope(),
    {
        &self.effective
    }
}

/// The values an authored property stands for: each item of an array, or the value itself.
pub open spec fn property_values(v: JsonView) -> Seq<JsonView> {
    match v {
        JsonView::Array(items) => items,
        _ => seq![v],
    }
}

/// How `u` reads as a node address.
#[verifier::opaque]
pub open spec fn address_check(u: Seq<char>) -> Result<UriView, UriErrorView> {
    parse_uri(u)
}

/// What an authored key expands to in scope `c`.
#[verifier::opaque]
pub open spec fn key_expansion(c: ContextView, key: Seq<char>) -> Result<(UriView, Coercion), ContextErrorView> {
    expand_key_spec(c, key)
}

/// Whether the values from `j` on are canonical node addresses, or the message of the first
/// that is not.
pub open spec fn node_links_from(key: Seq<char>, values: Seq<JsonView>, j: int) -> Result<(), Seq<char>>
    decreases values.len() - j,
{
    if j < 0 || j >= values.len() {
        Ok(())
    } else {
        match values[j] {
            JsonView::Str(u) => match address_check(u) {
                Ok(_) => node_links_from(key, values, j + 1),
                Err(e) => Err(uri_error_message(e)),
            },
            _ => Err(key + " requires a node URI string"@),
        }
    }
}

/// Whether the fact properties from `i` on are accepted in scope `c`: every key expands,
/// and a key that expands to a node link has canonical node addresses for values.
pub open spec fn facts_from(c: ContextView, ms: Seq<(Seq<char>, JsonView)>, i: int) -> Result<(), Seq<char>>
    decreases ms.len() - i,
{
    if i < 0 || i >= ms.len() {
        Ok(())
    } else {
        match key_expansion(c, ms[i].0) {
            Err(e) => Err(context_error_message(e)),
            Ok((_, coercion)) => {
                let links = if coercion == Coercion::NodeId {
                    node_links_from(ms[i].0, property_values(ms[i].1), 0)
                } else {
                    Ok(())
                };
                match links {
                    Err(m) => Err(m),
                    Ok(_) => facts_from(c, ms, i + 1),
                }
            },
        }
    }
}

/// Whether `v` is accepted as fact properties in scope `c`.
pub open spec fn facts_verdict(c: ContextView, v: JsonView) -> Result<(), Seq<char>> {
    match v {
        JsonView::Object(ms) => facts_from(c, ms, 0),
        _ => Err("facts must be an object"@),
    }
}

/// Authored fact properties with validated keys and node-link spelling.
#[derive(Debug, PartialEq)]
pub struct AuthoredFacts(Vec<(String, JsonValue)>);

impl AuthoredFacts {
    pub closed spec fn properties_view(&self) -> Seq<(Seq<char>, JsonView)> {
        member_views(self.0@)
    }

    /// No properties.
    pub fn new() -> (r: AuthoredFacts)
        ensures
            r.properties_view() == Seq::<(Seq<char>, JsonView)>::empty(),
    {
        let r = AuthoredFacts(Vec::new());
        assert(r.properties_view() =~= Seq::<(Seq<char>, JsonView)>::empty());
        r
    }

    #[verifier::rlimit(40)]
    /// Check fact properties using only this carrier's context: each key must expand in the
    /// context's scope (the empty scope without one), and a node-link key's values must be
    /// node addresses.
    pub fn parse(value: &JsonValue, context: Option<&AuthoredContext>) -> (r: Result<
        AuthoredFacts,
        String,
    >)
        ensures
            ({
                let scope = match context {
                    Some(a) => a.scope(),
                    None => empty_context_view(),
                };
                match r {
                    Ok(f) => facts_verdict(scope, value@) == Ok::<(), Seq<char>>(()) && (value@ matches JsonView::Object(ms) && f.properties_view() == ms),
                    Err(m) => facts_verdict(scope, value@) == Err::<(), Seq<char>>(m@),
                }
            }),
    {
        let ms = match value {
            JsonValue::Object(ms) => ms,
            _ => {
                return Err(String::from_str("facts must be an object"));
            },
        };
        let empty = EffectiveContext::new();
        let effective = match context {
            Some(a) => &a.effective,
            None => &empty,
        };
        let ghost scope = effective@;
        proof {
            lemma_member_views(ms@);
        }
        let ghost mv = member_views(ms@);
        assert(value@ == JsonView::Object(mv));
        let mut i: usize = 0;
        while i < ms.len()
            invariant
                i <= ms@.len(),
                mv == member_views(ms@),
                mv.len() == ms@.len(),
                forall|q: int| 0 <= q < ms@.len() ==> #[trigger] mv[q] == (ms@[q].0@, json_view(ms@[q].1)),
                scope == effective@,
                scope == (match context {
                    Some(a) => a.scope(),
                    None => empty_context_view(),
                }),
                value@ == JsonView::Object(mv),
                facts_from(scope, mv, 0) == facts_from(scope, mv, i as int),
            decreases ms.len() - i,
        {
            assert(mv[i as int] == (ms@[i as int].0@, json_view(ms@[i as int].1)));
            let key = &ms[i].0;
            let expanded = match expand_in(effective, key.as_str()) {
                Ok(k) => k,
                Err(e) => {
                    return Err(e.message());
                },
            };
            if expanded.coercion() == Coercion::NodeId {
                match check_node_links(key.as_str(), &ms[i].1) {
                    Ok(_) => {},
                    Err(m) => {
                        return Err(m);
                    },
                }
            }
            i = i + 1;
        }
        Ok(AuthoredFacts(crate::json::copy_members(ms)))
    }

    /// The preserved authored properties. A bare array denotes repeated objects.
    pub fn properties(&self) -> (r: &[(String, JsonValue)])
        ensures
            member_views(r@) == self.properties_view(),
    {
        self.0.as_slice()
    }

    /// Whether no properties were authored.
    pub fn is_empty(&self) -> (r: bool)
        ensures
            r == (self.properties_view().len() == 0),
    {
        proof {
            lemma_member_views(self.0@);
        }
        self.0.len() == 0
    }
}

impl Default for AuthoredFacts {
    fn default() -> (r: AuthoredFacts)
        ensures
            r.properties_view() == Seq::<(Seq<char>, JsonView)>::empty(),
    {
        AuthoredFacts::new()
    }
}

// ---------------------------------------------------------------------------
// Metadata scopes
// ---------------------------------------------------------------------------

/// The scope an optional authored context gives fact keys.
pub open spec fn scope_of(context: Option<AuthoredContext>) -> ContextView {
    match context {
        Some(a) => a.scope(),
        None => empty_context_view(),
    }
}

/// The members authored facts keep: an object's members, or none when absent.
pub open spec fn fact_members(facts: Option<JsonView>) -> Seq<(Seq<char>, JsonView)> {
    match facts {
        Some(JsonView::Object(ms)) => ms,
        _ => Seq::<(Seq<char>, JsonView)>::empty(),
    }
}

/// Whether optional facts are accepted in scope `c`.
pub open spec fn optional_facts_verdict(c: ContextView, facts: Option<JsonView>) -> Result<(), Seq<char>> {
    match facts {
        Some(v) => facts_verdict(c, v),
        None => Ok(()),
    }
}

/// Whether a context and facts are accepted together: the context resolves, and every fact
/// key is accepted in the scope it resolves to.
pub open spec fn scope_verdict(context: Option<JsonView>, facts: Option<JsonView>) -> Result<(), Seq<char>> {
    match context {
        Some(c) => match authored_context(c) {
            Err(e) => Err(context_error_message(e)),
            Ok(s) => optional_facts_verdict(s, facts),
        },
        None => optional_facts_verdict(empty_context_view(), facts),
    }
}

/// Whether `context` keeps exactly the authored context `authored`, if any.
pub open spec fn keeps_context(context: Option<AuthoredContext>, authored: Option<JsonView>) -> bool {
    match (context, authored) {
        (Some(a), Some(v)) => a.authored_view() == v && authored_context(v) == Ok::<ContextView, ContextErrorView>(a.scope()),
        (None, None) => true,
        _ => false,
    }
}

/// One node-local or specification-local metadata scope.
#[derive(Debug, PartialEq)]
pub struct MetadataScope {
    /// The scope's independent compact-name bindings.
    pub context: Option<AuthoredContext>,
    /// Its authored fact properties.
    pub facts: AuthoredFacts,
}

impl Default for MetadataScope {
    fn default() -> (r: MetadataScope)
        ensures
            r.context is None,
            r.facts.properties_view() == Seq::<(Seq<char>, JsonView)>::empty(),
    {
        MetadataScope { context: None, facts: AuthoredFacts::new() }
    }
}

/// Whether a metadata scope object names only `@context` and `facts`, or the first other
/// member name from `i` on.
pub open spec fn first_unknown_scope_member(ms: Seq<(Seq<char>, JsonView)>, i: int) -> Option<Seq<char>>
    decreases ms.len() - i,
{
    if i < 0 || i >= ms.len() {
        None
    } else if ms[i].0 != "@context"@ && ms[i].0 != "facts"@ {
        Some(ms[i].0)
    } else {
        first_unknown_scope_member(ms, i + 1)
    }
}

/// What decoding a metadata scope object checks before its context and facts.
pub open spec fn scope_shape(v: JsonView) -> Result<Seq<(Seq<char>, JsonView)>, Seq<char>> {
    match v {
        JsonView::Object(ms) => match first_unknown_scope_member(ms, 0) {
            Some(k) => Err("unknown metadata member "@ + k),
            None => Ok(ms),
        },
        _ => Err("metadata scope must be an object"@),
    }
}

/// The index of the first member of a metadata scope object other than `@context` and
/// `facts`.
fn unknown_scope_member(ms: &Vec<(String, JsonValue)>) -> (r: Option<usize>)
    ensures
        match r {
            Some(i) => i < ms@.len() && first_unknown_scope_member(member_views(ms@), 0) == Some(ms@[i as int].0@),
            None => first_unknown_scope_member(member_views(ms@), 0) is None,
        },
{
    let ghost mv = member_views(ms@);
    proof {
        lemma_member_views(ms@);
    }
    let mut i: usize = 0;
    while i < ms.len()
        invariant
            i <= ms@.len(),
            mv == member_views(ms@),
            mv.len() == ms@.len(),
            forall|q: int| 0 <= q < ms@.len() ==> #[trigger] mv[q] == (ms@[q].0@, json_view(ms@[q].1)),
            first_unknown_scope_member(mv, 0) == first_unknown_scope_member(mv, i as int),
        decreases ms.len() - i,
    {
        assert(mv[i as int] == (ms@[i as int].0@, json_view(ms@[i as int].1)));
        let key = ms[i].0.as_str();
        if !str_eq(key, "@context") && !str_eq(key, "facts") {
            return Some(i);
        }
        i = i + 1;
    }
    None
}

/// The message naming an unexpected member.
fn member_message(lead: &str, key: &str) -> (r: String)
    ensures
        r@ == lead@ + key@,
{
    let mut out: Vec<char> = Vec::new();
    push_str_chars(&mut out, lead);
    push_str_chars(&mut out, key);
    string_of(out.as_slice())
}

impl MetadataScope {
    /// Check a context and facts together, so every fact key is checked against its own
    /// scope.
    pub fn parse(context: Option<&JsonValue>, facts: Option<&JsonValue>) -> (r: Result<MetadataScope, String>)
        ensures
            ({
                let cv = match context {
                    Some(v) => Some(v@),
                    None => None,
                };
                let fv = match facts {
                    Some(v) => Some(v@),
                    None => None,
                };
                match r {
                    Ok(m) => scope_verdict(cv, fv) == Ok::<(), Seq<char>>(()) && keeps_context(m.context, cv)
                        && m.facts.properties_view() == fact_members(fv),
                    Err(msg) => scope_verdict(cv, fv) == Err::<(), Seq<char>>(msg@),
                }
            }),
    {
        let authored = match context {
            Some(v) => match AuthoredContext::parse(v.duplicate()) {
                Ok(a) => Some(a),
                Err(m) => {
                    return Err(m);
                },
            },
            None => None,
        };
        assert(scope_of(authored) == match context {
            Some(v) => match authored_context(v@) {
                Ok(s) => s,
                Err(_) => empty_context_view(),
            },
            None => empty_context_view(),
        });
        let parsed = match facts {
            Some(v) => match AuthoredFacts::parse(v, authored.as_ref()) {
                Ok(f) => f,
                Err(m) => {
                    return Err(m);
                },
            },
            None => AuthoredFacts::new(),
        };
        Ok(MetadataScope { context: authored, facts: parsed })
    }

    /// Decode a metadata scope object: it names only `@context` and `facts`, which are
    /// then checked together.
    pub fn decode(value: &JsonValue) -> (r: Result<MetadataScope, String>)
        ensures
            match scope_shape(value@) {
                Err(msg) => r matches Err(m) && m@ == msg,
                Ok(ms) => {
                    let cv = member_named(ms, "@context"@);
                    let fv = member_named(ms, "facts"@);
                    match r {
                        Ok(m) => scope_verdict(cv, fv) == Ok::<(), Seq<char>>(()) && keeps_context(m.context, cv)
                            && m.facts.properties_view() == fact_members(fv),
                        Err(msg) => scope_verdict(cv, fv) == Err::<(), Seq<char>>(msg@),
                    }
                },
            },
    {
        let ms = match value {
            JsonValue::Object(ms) => ms,
            _ => {
                return Err(String::from_str("metadata scope must be an object"));
            },
        };
        match unknown_scope_member(ms) {
            Some(i) => {
                return Err(member_message("unknown metadata member ", ms[i].0.as_str()));
            },
            None => {},
        }
        MetadataScope::parse(get_member(ms, "@context"), get_member(ms, "facts"))
    }

    /// Whether this scope has neither bindings nor facts.
    pub fn is_empty(&self) -> (r: bool)
        ensures
            r == (self.context is None && self.facts.properties_view().len() == 0),
    {
        self.context.is_none() && self.facts.is_empty()
    }

    /// Resolve a compact annotation or fact key in this scope.
    pub fn expand_key(&self, key: &str) -> (r: Result<NodeUri, String>)
        ensures
            match key_expansion(scope_of(self.context), key@) {
                Ok((u, _)) => r matches Ok(n) && n@ == u,
                Err(e) => r matches Err(m) && m@ == context_error_message(e),
            },
    {
        let empty = EffectiveContext::new();
        let effective = match &self.context {
            Some(a) => &a.effective,
            None => &empty,
        };
        match expand_in(effective, key) {
            Ok(k) => Ok(k.uri().duplicate()),
            Err(e) => Err(e.message()),
        }
    }
}

// ---------------------------------------------------------------------------
// Document graphs
// ---------------------------------------------------------------------------

/// A graph subject as plain values: its address and its authored fact properties.
pub struct SubjectView {
    pub id: Seq<char>,
    pub facts: Seq<(Seq<char>, JsonView)>,
}

/// What one `@graph` entry reads as in scope `c`: an object with a string `@id` that is a
/// node address, whose other members are accepted fact properties.
pub open spec fn graph_subject(c: ContextView, v: JsonView) -> Result<SubjectView, Seq<char>> {
    match v {
        JsonView::Object(ms) => match member_named(ms, "@id"@) {
            Some(JsonView::Str(id)) => match address_check(id) {
                Err(e) => Err(uri_error_message(e)),
                Ok(_) => {
                    let props = without_member(ms, "@id"@);
                    match facts_verdict(c, JsonView::Object(props)) {
                        Err(m) => Err(m),
                        Ok(_) => Ok(SubjectView { id, facts: props }),
                    }
                },
            },
            _ => Err("@graph entry requires a string @id"@),
        },
        _ => Err("@graph entries must be objects"@),
    }
}

/// Whether the `@graph` entries from `i` on are accepted, or the first refusal's message.
pub open spec fn graph_from(c: ContextView, items: Seq<JsonView>, i: int) -> Result<(), Seq<char>>
    decreases items.len() - i,
{
    if i < 0 || i >= items.len() {
        Ok(())
    } else {
        match graph_subject(c, items[i]) {
            Err(m) => Err(m),
            Ok(_) => graph_from(c, items, i + 1),
        }
    }
}

/// The subjects accepted `@graph` entries read as.
pub open spec fn graph_views(c: ContextView, items: Seq<JsonView>) -> Seq<SubjectView> {
    items.map_values(|v: JsonView| graph_subject(c, v)->Ok_0)
}

/// One explicitly addressed subject in a document's default graph.
#[derive(Debug, PartialEq)]
pub struct GraphSubject {
    id: String,
    facts: AuthoredFacts,
}

impl View for GraphSubject {
    type V = SubjectView;

    closed spec fn view(&self) -> SubjectView {
        SubjectView { id: self.id@, facts: self.facts.properties_view() }
    }
}

pub open spec fn subject_views(s: Seq<GraphSubject>) -> Seq<SubjectView> {
    s.map_values(|g: GraphSubject| g@)
}

impl GraphSubject {
    /// The canonical subject address.
    pub fn id(&self) -> (r: &str)
        ensures
            r@ == self@.id,
    {
        self.id.as_str()
    }

    /// Authored fact properties on this subject.
    pub fn facts(&self) -> (r: &AuthoredFacts)
        ensures
            r.properties_view() == self@.facts,
    {
        &self.facts
    }

    /// Read one `@graph` entry in the scope of the document's context.
    pub fn parse(value: &JsonValue, context: Option<&AuthoredContext>) -> (r: Result<GraphSubject, String>)
        ensures
            ({
                let scope = match context {
                    Some(a) => a.scope(),
                    None => empty_context_view(),
                };
                match r {
                    Ok(g) => graph_subject(scope, value@) == Ok::<SubjectView, Seq<char>>(g@),
                    Err(m) => graph_subject(scope, value@) == Err::<SubjectView, Seq<char>>(m@),
                }
            }),
    {
        let ms = match value {
            JsonValue::Object(ms) => ms,
            _ => {
                return Err(String::from_str("@graph entries must be objects"));
            },
        };
        let id = match get_member(ms, "@id") {
            Some(JsonValue::Str(id)) => id,
            _ => {
                return Err(String::from_str("@graph entry requires a string @id"));
            },
        };
        match NodeUri::parse(id.as_str()) {
            Ok(_) => {},
            Err(e) => {
                proof {
                    reveal(address_check);
                }
                return Err(e.message());
            },
        }
        proof {
            reveal(address_check);
        }
        let props = crate::json::without_key(crate::json::copy_members(ms), "@id");
        let whole = JsonValue::Object(props);
        match AuthoredFacts::parse(&whole, context) {
            Ok(facts) => {
                let g = GraphSubject { id: id.clone(), facts };
                Ok(g)
            },
            Err(m) => Err(m),
        }
    }
}


impl GraphSubject {
    /// The JSON this subject is written as: its `@id`, then its fact properties.
    pub fn to_json(&self) -> (r: JsonValue)
        ensures
            r@ == JsonView::Object(seq![("@id"@, JsonView::Str(self@.id))] + self@.facts),
    {
        let mut out: Vec<(String, JsonValue)> = Vec::new();
        assert(member_views(out@) =~= Seq::<(Seq<char>, JsonView)>::empty());
        push_member(&mut out, "@id", JsonValue::Str(self.id.clone()));
        let ghost head = member_views(out@);
        let props = copy_members(&self.facts.0);
        let mut i: usize = 0;
        proof {
            lemma_member_views(props@);
        }
        assert(member_views(out@) =~= head + member_views(props@).take(0));
        while i < props.len()
            invariant
                i <= props@.len(),
                member_views(props@).len() == props@.len(),
                forall|q: int| 0 <= q < props@.len() ==> #[trigger] member_views(props@)[q] == (props@[q].0@, json_view(props@[q].1)),
                member_views(out@) == head + member_views(props@).take(i as int),
            decreases props.len() - i,
        {
            let x = props[i].1.duplicate();
            let k = props[i].0.clone();
            proof {
                crate::json::lemma_member_views_push(out@, k, x);
            }
            out.push((k, x));
            assert(member_views(props@).take(i as int + 1) =~= member_views(props@).take(i as int).push(
                member_views(props@)[i as int],
            ));
            i = i + 1;
        }
        assert(member_views(props@).take(i as int) =~= member_views(props@));
        assert(member_views(out@) =~= seq![("@id"@, JsonView::Str(self@.id))] + self@.facts);
        JsonValue::Object(out)
    }
}

// ---------------------------------------------------------------------------
// Assertion sources
// ---------------------------------------------------------------------------

/// The expanded identity of one authored assertion.
#[derive(Debug, PartialEq)]
pub struct AssertionSelector {
    /// `attributesFacts`, `annotationsFacts`, or `documentGraph`.
    pub carrier: String,
    /// Expanded canonical subject URI.
    pub subject: String,
    /// Expanded canonical predicate URI.
    pub predicate: String,
    /// A `@value` or `@id` object term.
    pub object: JsonValue,
}

/// A selector as plain values.
pub struct SelectorView {
    pub carrier: Seq<char>,
    pub subject: Seq<char>,
    pub predicate: Seq<char>,
    pub object: JsonView,
}

impl View for AssertionSelector {
    type V = SelectorView;

    open spec fn view(&self) -> SelectorView {
        SelectorView {
            carrier: self.carrier@,
            subject: self.subject@,
            predicate: self.predicate@,
            object: self.object@,
        }
    }
}

/// One authored selector and its source claims.
#[derive(Debug, PartialEq)]
pub struct AssertionSourceRecord {
    /// Expanded assertion identity in the containing document.
    pub selector: AssertionSelector,
    /// Explicit descriptive source claims.
    pub sources: Vec<SourceClaim>,
}

/// A record as plain values.
pub struct RecordView {
    pub selector: SelectorView,
    pub sources: Seq<SourceClaim>,
}

impl View for AssertionSourceRecord {
    type V = RecordView;

    open spec fn view(&self) -> RecordView {
        RecordView { selector: self.selector@, sources: self.sources@ }
    }
}

pub open spec fn record_views(rs: Seq<AssertionSourceRecord>) -> Seq<RecordView> {
    rs.map_values(|r: AssertionSourceRecord| r@)
}

/// The object term a fact value stands for under `coercion`: `{"@id": v}` for a node link,
/// `{"@value": v}` otherwise.
pub open spec fn object_term(coercion: Coercion, v: JsonView) -> JsonView {
    JsonView::Object(seq![(if coercion == Coercion::NodeId { "@id"@ } else { "@value"@ }, v)])
}

/// Whether the authored property `key: authored` asserts `predicate` with object term
/// `object` in scope `c`.
pub open spec fn property_asserts(
    c: ContextView,
    key: Seq<char>,
    authored: JsonView,
    predicate: Seq<char>,
    object: JsonView,
) -> bool {
    match key_expansion(c, key) {
        Ok((u, coercion)) => uri_spelling(u) == predicate && exists|q: int|
            0 <= q < property_values(authored).len() && object == #[trigger] object_term(
                coercion,
                property_values(authored)[q],
            ),
        Err(_) => false,
    }
}

/// Whether some authored fact of subject `s` asserts the selected predicate and object.
pub open spec fn subject_asserts(c: ContextView, s: SubjectView, sel: SelectorView) -> bool {
    s.id == sel.subject && exists|p: int|
        0 <= p < s.facts.len() && #[trigger] property_asserts(c, s.facts[p].0, s.facts[p].1, sel.predicate, sel.object)
}

/// Whether the document graph holds the assertion a selector names.
pub open spec fn selector_matched(c: ContextView, graph: Seq<SubjectView>, sel: SelectorView) -> bool {
    exists|g: int| 0 <= g < graph.len() && #[trigger] subject_asserts(c, graph[g], sel)
}

/// Whether a selector object is a single `@value` or `@id` term.
pub open spec fn term_shaped(ms: Seq<(Seq<char>, JsonView)>) -> bool {
    ms.len() == 1 && (ms[0].0 == "@value"@ || ms[0].0 == "@id"@)
}

/// Why the selector object of a record is refused, if it is: it must be a single `@value`
/// or `@id` term, and an `@id` must be a node address.
pub open spec fn object_refusal(object: JsonView) -> Option<Seq<char>> {
    match object {
        JsonView::Object(ms) => if !term_shaped(ms) {
            Some("selector object must be @value or @id"@)
        } else {
            match member_named(ms, "@id"@) {
                Some(JsonView::Str(id)) => match address_check(id) {
                    Err(e) => Some(uri_error_message(e)),
                    Ok(_) => None,
                },
                Some(_) => Some("selector @id must be a string"@),
                None => None,
            }
        },
        _ => Some("selector object must be @value or @id"@),
    }
}

/// Why record `i` is refused, if it is, given the records before it were accepted.
pub open spec fn record_refusal(
    c: ContextView,
    graph: Seq<SubjectView>,
    records: Seq<RecordView>,
    i: int,
) -> Option<Seq<char>> {
    let sel = records[i].selector;
    if records[i].sources.len() == 0 {
        Some("assertionSources entries require at least one source"@)
    } else if sel.carrier != "documentGraph"@ {
        Some("node-carrier assertion source selectors require owner resolution"@)
    } else if address_check(sel.subject) is Err {
        Some(uri_error_message(address_check(sel.subject)->Err_0))
    } else if address_check(sel.predicate) is Err {
        Some(uri_error_message(address_check(sel.predicate)->Err_0))
    } else if object_refusal(sel.object) is Some {
        object_refusal(sel.object)
    } else if exists|j: int| 0 <= j < i && #[trigger] records[j].selector == sel {
        Some("duplicate assertion source selector"@)
    } else if !selector_matched(c, graph, sel) {
        Some("assertion source selector has no matching document-graph assertion"@)
    } else {
        None
    }
}

/// Whether the records from `i` on are accepted, or the first refusal's message.
pub open spec fn records_from(c: ContextView, graph: Seq<SubjectView>, records: Seq<RecordView>, i: int) -> Result<
    (),
    Seq<char>,
>
    decreases records.len() - i,
{
    if i < 0 || i >= records.len() {
        Ok(())
    } else {
        match record_refusal(c, graph, records, i) {
            Some(m) => Err(m),
            None => records_from(c, graph, records, i + 1),
        }
    }
}


/// Whether `object` is the single-member object `{name: v}`.
fn is_term(object: &JsonValue, name: &str, v: &JsonValue) -> (r: bool)
    ensures
        r == (object@ == JsonView::Object(seq![(name@, v@)])),
{
    match object {
        JsonValue::Object(ms) => {
            proof {
                lemma_member_views(ms@);
            }
            if ms.len() != 1 {
                assert(member_views(ms@).len() != seq![(name@, v@)].len());
                return false;
            }
            let r = str_eq(ms[0].0.as_str(), name) && ms[0].1.same_as(v);
            assert(r ==> member_views(ms@) =~= seq![(name@, v@)]);
            assert(member_views(ms@) == seq![(name@, v@)] ==> member_views(ms@)[0] == (name@, v@));
            r
        },
        _ => false,
    }
}

/// Whether one of `values` stands for the object term `object` under `coercion`.
fn any_value_matches(values: &[JsonValue], coercion: Coercion, object: &JsonValue) -> (r: bool)
    ensures
        r == exists|q: int| 0 <= q < values@.len() && object@ == #[trigger] object_term(coercion, values@[q]@),
{
    let name = if coercion == Coercion::NodeId {
        "@id"
    } else {
        "@value"
    };
    assert(name@ == (if coercion == Coercion::NodeId { "@id"@ } else { "@value"@ }));
    let mut q: usize = 0;
    while q < values.len()
        invariant
            q <= values@.len(),
            name@ == (if coercion == Coercion::NodeId { "@id"@ } else { "@value"@ }),
            forall|k: int| 0 <= k < q ==> object@ != #[trigger] object_term(coercion, values@[k]@),
        decreases values.len() - q,
    {
        if is_term(object, name, &values[q]) {
            assert(object@ == object_term(coercion, values@[q as int]@));
            return true;
        }
        q = q + 1;
    }
    false
}

/// Whether the authored property `key: authored` asserts `predicate` with object term
/// `object` in scope `c`.
fn fact_asserts(c: &EffectiveContext, key: &str, authored: &JsonValue, predicate: &str, object: &JsonValue) -> (r: bool)
    ensures
        r == property_asserts(c@, key@, authored@, predicate@, object@),
{
    let expanded = match expand_in(c, key) {
        Ok(k) => k,
        Err(_) => {
            return false;
        },
    };
    let spelled = expanded.uri().to_string();
    if !str_eq(spelled.as_str(), predicate) {
        return false;
    }
    let coercion = expanded.coercion();
    match authored {
        JsonValue::Array(items) => {
            proof {
                crate::json::lemma_item_views(items@);
            }
            let r = any_value_matches(items.as_slice(), coercion, object);
            proof {
                let pv = property_values(authored@);
                assert(pv == crate::json::item_views(items@));
                if r {
                    let q = choose|q: int| 0 <= q < items@.len() && object@ == #[trigger] object_term(coercion, items@[q]@);
                    assert(pv[q] == items@[q]@);
                    assert(object@ == object_term(coercion, pv[q]));
                } else {
                    assert forall|q: int| 0 <= q < pv.len() implies object@ != #[trigger] object_term(coercion, pv[q]) by {
                        assert(pv[q] == items@[q]@);
                        assert(object@ != object_term(coercion, items@[q]@));
                    }
                }
            }
            r
        },
        _ => {
            let name = if coercion == Coercion::NodeId {
                "@id"
            } else {
                "@value"
            };
            let r = is_term(object, name, authored);
            proof {
                let pv = property_values(authored@);
                assert(pv == seq![authored@]);
                if r {
                    assert(object@ == object_term(coercion, pv[0]));
                }
            }
            r
        },
    }
}

/// Whether some authored fact of `s` asserts the selected predicate and object in scope `c`.
fn subject_asserts_in(c: &EffectiveContext, s: &GraphSubject, sel: &AssertionSelector) -> (r: bool)
    ensures
        r == subject_asserts(c@, s@, sel@),
{
    if !str_eq(s.id.as_str(), sel.subject.as_str()) {
        return false;
    }
    let props = s.facts.properties();
    let ghost pv = member_views(props@);
    proof {
        crate::json::lemma_member_views(props@);
    }
    let mut p: usize = 0;
    while p < props.len()
        invariant
            p <= props@.len(),
            pv == member_views(props@),
            pv == s@.facts,
            s@.id == sel@.subject,
            pv.len() == props@.len(),
            forall|k: int| 0 <= k < props@.len() ==> #[trigger] pv[k] == (props@[k].0@, json_view(props@[k].1)),
            forall|k: int| 0 <= k < p ==> !#[trigger] property_asserts(c@, pv[k].0, pv[k].1, sel@.predicate, sel@.object),
        decreases props.len() - p,
    {
        assert(pv[p as int] == (props@[p as int].0@, json_view(props@[p as int].1)));
        if fact_asserts(c, props[p].0.as_str(), &props[p].1, sel.predicate.as_str(), &sel.object) {
            assert(property_asserts(c@, pv[p as int].0, pv[p as int].1, sel@.predicate, sel@.object));
            return true;
        }
        p = p + 1;
    }
    false
}

/// Whether the document graph holds the assertion `sel` names.
fn selector_matched_in(c: &EffectiveContext, graph: &Vec<GraphSubject>, sel: &AssertionSelector) -> (r: bool)
    ensures
        r == selector_matched(c@, subject_views(graph@), sel@),
{
    let ghost gv = subject_views(graph@);
    let mut g: usize = 0;
    while g < graph.len()
        invariant
            g <= graph@.len(),
            gv == subject_views(graph@),
            gv.len() == graph@.len(),
            forall|k: int| 0 <= k < g ==> !#[trigger] subject_asserts(c@, gv[k], sel@),
        decreases graph.len() - g,
    {
        assert(gv[g as int] == graph@[g as int]@);
        if subject_asserts_in(c, &graph[g], sel) {
            assert(subject_asserts(c@, gv[g as int], sel@));
            return true;
        }
        g = g + 1;
    }
    false
}

/// Whether two selectors name the same assertion.
fn same_selector(a: &AssertionSelector, b: &AssertionSelector) -> (r: bool)
    ensures
        r == (a@ == b@),
{
    str_eq(a.carrier.as_str(), b.carrier.as_str()) && str_eq(a.subject.as_str(), b.subject.as_str())
        && str_eq(a.predicate.as_str(), b.predicate.as_str()) && a.object.same_as(&b.object)
}

/// Check a selector's object term.
fn check_object(object: &JsonValue) -> (r: Result<(), String>)
    ensures
        match object_refusal(object@) {
            Some(m) => r matches Err(x) && x@ == m,
            None => r is Ok,
        },
{
    let ms = match object {
        JsonValue::Object(ms) => ms,
        _ => {
            return Err(String::from_str("selector object must be @value or @id"));
        },
    };
    proof {
        lemma_member_views(ms@);
        reveal(address_check);
    }
    assert(object@ == JsonView::Object(member_views(ms@)));
    if ms.len() != 1 || (!str_eq(ms[0].0.as_str(), "@value") && !str_eq(ms[0].0.as_str(), "@id")) {
        return Err(String::from_str("selector object must be @value or @id"));
    }
    match get_member(ms, "@id") {
        Some(JsonValue::Str(id)) => match NodeUri::parse(id.as_str()) {
            Ok(_) => Ok(()),
            Err(e) => Err(e.message()),
        },
        Some(_) => Err(String::from_str("selector @id must be a string")),
        None => Ok(()),
    }
}

/// Check one record against the document graph and the records before it.
fn check_record(
    c: &EffectiveContext,
    graph: &Vec<GraphSubject>,
    records: &Vec<AssertionSourceRecord>,
    i: usize,
) -> (r: Result<(), String>)
    requires
        i < records@.len(),
    ensures
        match record_refusal(c@, subject_views(graph@), record_views(records@), i as int) {
            Some(m) => r matches Err(x) && x@ == m,
            None => r is Ok,
        },
{
    let ghost rv = record_views(records@);
    assert(rv[i as int] == records@[i as int]@);
    let record = &records[i];
    let sel = &record.selector;
    proof {
        reveal(address_check);
        reveal_strlit("documentGraph");
    }
    if record.sources.len() == 0 {
        return Err(String::from_str("assertionSources entries require at least one source"));
    }
    if !str_eq(sel.carrier.as_str(), "documentGraph") {
        return Err(String::from_str("node-carrier assertion source selectors require owner resolution"));
    }
    match NodeUri::parse(sel.subject.as_str()) {
        Ok(_) => {},
        Err(e) => {
            return Err(e.message());
        },
    }
    match NodeUri::parse(sel.predicate.as_str()) {
        Ok(_) => {},
        Err(e) => {
            return Err(e.message());
        },
    }
    match check_object(&sel.object) {
        Ok(_) => {},
        Err(m) => {
            return Err(m);
        },
    }
    let mut j: usize = 0;
    while j < i
        invariant
            j <= i,
            i < records@.len(),
            rv == record_views(records@),
            *sel == records@[i as int].selector,
            rv[i as int].sources.len() != 0,
            sel@.carrier == "documentGraph"@,
            address_check(sel@.subject) is Ok,
            address_check(sel@.predicate) is Ok,
            object_refusal(sel@.object) is None,
            forall|k: int| 0 <= k < j ==> (#[trigger] rv[k]).selector != sel@,
        decreases i - j,
    {
        assert(rv[j as int] == records@[j as int]@);
        if same_selector(&records[j].selector, sel) {
            assert(rv[j as int].selector == rv[i as int].selector);
            return Err(String::from_str("duplicate assertion source selector"));
        }
        j = j + 1;
    }
    if !selector_matched_in(c, graph, sel) {
        return Err(String::from_str("assertion source selector has no matching document-graph assertion"));
    }
    Ok(())
}

/// Check every record in order.
fn check_records(c: &EffectiveContext, graph: &Vec<GraphSubject>, records: &Vec<AssertionSourceRecord>) -> (r: Result<
    (),
    String,
>)
    ensures
        match r {
            Ok(_) => records_from(c@, subject_views(graph@), record_views(records@), 0) == Ok::<(), Seq<char>>(()),
            Err(m) => records_from(c@, subject_views(graph@), record_views(records@), 0) == Err::<(), Seq<char>>(m@),
        },
{
    let ghost gv = subject_views(graph@);
    let ghost rv = record_views(records@);
    let mut i: usize = 0;
    while i < records.len()
        invariant
            i <= records@.len(),
            gv == subject_views(graph@),
            rv == record_views(records@),
            rv.len() == records@.len(),
            records_from(c@, gv, rv, 0) == records_from(c@, gv, rv, i as int),
        decreases records.len() - i,
    {
        match check_record(c, graph, records, i) {
            Ok(_) => {},
            Err(m) => {
                return Err(m);
            },
        }
        i = i + 1;
    }
    Ok(())
}


// ---------------------------------------------------------------------------
// Document metadata
// ---------------------------------------------------------------------------

/// The first member of a `$meta` object from `i` on other than `@context`, `@graph` and
/// `assertionSources`.
pub open spec fn first_unknown_meta_member(ms: Seq<(Seq<char>, JsonView)>, i: int) -> Option<Seq<char>>
    decreases ms.len() - i,
{
    if i < 0 || i >= ms.len() {
        None
    } else if ms[i].0 != "@context"@ && ms[i].0 != "@graph"@ && ms[i].0 != "assertionSources"@ {
        Some(ms[i].0)
    } else {
        first_unknown_meta_member(ms, i + 1)
    }
}

/// The scope a `$meta` object's context gives its graph and selectors.
pub open spec fn meta_scope(ms: Seq<(Seq<char>, JsonView)>) -> ContextView {
    match member_named(ms, "@context"@) {
        Some(cv) => match authored_context(cv) {
            Ok(c) => c,
            Err(_) => empty_context_view(),
        },
        None => empty_context_view(),
    }
}

/// Whether a `$meta` object's context, if any, is accepted.
pub open spec fn meta_context_check(ms: Seq<(Seq<char>, JsonView)>) -> Result<(), Seq<char>> {
    match member_named(ms, "@context"@) {
        Some(cv) => match authored_context(cv) {
            Err(e) => Err(context_error_message(e)),
            Ok(_) => Ok(()),
        },
        None => Ok(()),
    }
}

/// What a `$meta` object's `@graph` reads as in scope `c`: no subjects when absent.
pub open spec fn meta_graph(c: ContextView, ms: Seq<(Seq<char>, JsonView)>) -> Result<Seq<SubjectView>, Seq<char>> {
    match member_named(ms, "@graph"@) {
        None => Ok(Seq::<SubjectView>::empty()),
        Some(JsonView::Array(items)) => match graph_from(c, items, 0) {
            Err(m) => Err(m),
            Ok(_) => Ok(graph_views(c, items)),
        },
        Some(_) => Err("@graph must be an array"@),
    }
}

/// Whether a `$meta` value is accepted, given the records its `assertionSources` member
/// decoded to (or the message decoding it failed with): only known members; a context the
/// grammar accepts; a graph of accepted subjects; then each record has a source, names a
/// document-graph assertion by canonical addresses and a single `@value` or `@id` term,
/// repeats no earlier selector, and matches an authored fact of the graph.
pub open spec fn document_meta_verdict(v: JsonView, sources: Result<Seq<RecordView>, Seq<char>>) -> Result<
    (),
    Seq<char>,
> {
    match v {
        JsonView::Object(ms) => match first_unknown_meta_member(ms, 0) {
            Some(k) => Err("unknown $meta member "@ + k),
            None => {
                match meta_context_check(ms) {
                    Err(m) => Err(m),
                    Ok(_) => match meta_graph(meta_scope(ms), ms) {
                        Err(m) => Err(m),
                        Ok(g) => match sources {
                            Err(m) => Err(m),
                            Ok(rs) => records_from(meta_scope(ms), g, rs, 0),
                        },
                    },
                }
            },
        },
        _ => Err("$meta must be an object"@),
    }
}

/// Document-owned metadata for one file.
#[derive(Debug, PartialEq)]
pub struct DocumentMeta {
    /// Bindings for this document graph alone.
    pub context: Option<AuthoredContext>,
    /// Explicit subjects and their authored fact properties.
    pub graph: Vec<GraphSubject>,
    /// Optional source details selected by expanded assertion identity.
    pub assertion_sources: Vec<AssertionSourceRecord>,
}

impl Default for DocumentMeta {
    fn default() -> (r: DocumentMeta)
        ensures
            r.context is None,
            r.graph@.len() == 0,
            r.assertion_sources@.len() == 0,
    {
        DocumentMeta { context: None, graph: Vec::new(), assertion_sources: Vec::new() }
    }
}

/// The index of the first `$meta` member other than `@context`, `@graph` and
/// `assertionSources`.
fn unknown_meta_member(ms: &Vec<(String, JsonValue)>) -> (r: Option<usize>)
    ensures
        match r {
            Some(i) => i < ms@.len() && first_unknown_meta_member(member_views(ms@), 0) == Some(ms@[i as int].0@),
            None => first_unknown_meta_member(member_views(ms@), 0) is None,
        },
{
    let ghost mv = member_views(ms@);
    proof {
        lemma_member_views(ms@);
    }
    let mut i: usize = 0;
    while i < ms.len()
        invariant
            i <= ms@.len(),
            mv == member_views(ms@),
            mv.len() == ms@.len(),
            forall|q: int| 0 <= q < ms@.len() ==> #[trigger] mv[q] == (ms@[q].0@, json_view(ms@[q].1)),
            first_unknown_meta_member(mv, 0) == first_unknown_meta_member(mv, i as int),
        decreases ms.len() - i,
    {
        assert(mv[i as int] == (ms@[i as int].0@, json_view(ms@[i as int].1)));
        let key = ms[i].0.as_str();
        if !str_eq(key, "@context") && !str_eq(key, "@graph") && !str_eq(key, "assertionSources") {
            return Some(i);
        }
        i = i + 1;
    }
    None
}

/// Read each `@graph` entry in order.
fn parse_graph(items: &Vec<JsonValue>, context: Option<&AuthoredContext>) -> (r: Result<Vec<GraphSubject>, String>)
    ensures
        ({
            let c = match context {
                Some(a) => a.scope(),
                None => empty_context_view(),
            };
            let iv = crate::json::item_views(items@);
            match r {
                Ok(g) => graph_from(c, iv, 0) == Ok::<(), Seq<char>>(()) && subject_views(g@) == graph_views(c, iv),
                Err(m) => graph_from(c, iv, 0) == Err::<(), Seq<char>>(m@),
            }
        }),
{
    let ghost c = match context {
        Some(a) => a.scope(),
        None => empty_context_view(),
    };
    let ghost iv = crate::json::item_views(items@);
    proof {
        crate::json::lemma_item_views(items@);
    }
    let mut out: Vec<GraphSubject> = Vec::new();
    let mut i: usize = 0;
    while i < items.len()
        invariant
            i <= items@.len(),
            c == (match context {
                Some(a) => a.scope(),
                None => empty_context_view(),
            }),
            iv == crate::json::item_views(items@),
            iv.len() == items@.len(),
            forall|q: int| 0 <= q < items@.len() ==> #[trigger] iv[q] == json_view(items@[q]),
            graph_from(c, iv, 0) == graph_from(c, iv, i as int),
            subject_views(out@) == graph_views(c, iv).take(i as int),
        decreases items.len() - i,
    {
        assert(iv[i as int] == json_view(items@[i as int]));
        let g = match GraphSubject::parse(&items[i], context) {
            Ok(g) => g,
            Err(m) => {
                return Err(m);
            },
        };
        let ghost before = out@;
        out.push(g);
        assert(subject_views(out@) =~= subject_views(before).push(g@));
        assert(graph_views(c, iv).take(i as int + 1) =~= graph_views(c, iv).take(i as int).push(
            graph_views(c, iv)[i as int],
        ));
        i = i + 1;
    }
    assert(graph_views(c, iv).take(i as int) =~= graph_views(c, iv));
    Ok(out)
}

/// Read a `$meta` object's context, if any.
fn meta_context(ms: &Vec<(String, JsonValue)>) -> (r: Result<Option<AuthoredContext>, String>)
    ensures
        match r {
            Ok(c) => meta_context_check(member_views(ms@)) == Ok::<(), Seq<char>>(())
                && keeps_context(c, member_named(member_views(ms@), "@context"@))
                && scope_of(c) == meta_scope(member_views(ms@)),
            Err(m) => meta_context_check(member_views(ms@)) == Err::<(), Seq<char>>(m@),
        },
{
    match get_member(ms, "@context") {
        Some(v) => match AuthoredContext::parse(v.duplicate()) {
            Ok(a) => Ok(Some(a)),
            Err(m) => Err(m),
        },
        None => Ok(None),
    }
}

/// Read a `$meta` object's graph, if any, in the scope of its context.
fn meta_subjects(ms: &Vec<(String, JsonValue)>, context: Option<&AuthoredContext>) -> (r: Result<Vec<GraphSubject>, String>)
    ensures
        ({
            let c = match context {
                Some(a) => a.scope(),
                None => empty_context_view(),
            };
            match r {
                Ok(g) => meta_graph(c, member_views(ms@)) == Ok::<Seq<SubjectView>, Seq<char>>(subject_views(g@)),
                Err(m) => meta_graph(c, member_views(ms@)) == Err::<Seq<SubjectView>, Seq<char>>(m@),
            }
        }),
{
    match get_member(ms, "@graph") {
        Some(JsonValue::Array(items)) => parse_graph(items, context),
        Some(_) => Err(String::from_str("@graph must be an array")),
        None => {
            let g: Vec<GraphSubject> = Vec::new();
            assert(subject_views(g@) =~= Seq::<SubjectView>::empty());
            Ok(g)
        },
    }
}

impl DocumentMeta {
    /// Check a document's `$meta` value without loading context resources. `sources` is
    /// what its `assertionSources` member decoded to: the records (none when the member is
    /// absent), or the message decoding failed with.
    pub fn parse(value: &JsonValue, sources: Result<Vec<AssertionSourceRecord>, String>) -> (r: Result<
        DocumentMeta,
        String,
    >)
        ensures
            ({
                let sv = match sources {
                    Ok(rs) => Ok::<Seq<RecordView>, Seq<char>>(record_views(rs@)),
                    Err(m) => Err::<Seq<RecordView>, Seq<char>>(m@),
                };
                match r {
                    Ok(d) => document_meta_verdict(value@, sv) == Ok::<(), Seq<char>>(()) && (value@ matches JsonView::Object(ms)
                        && keeps_context(d.context, member_named(ms, "@context"@))
                        && meta_graph(meta_scope(ms), ms) == Ok::<Seq<SubjectView>, Seq<char>>(subject_views(d.graph@))
                        && sv == Ok::<Seq<RecordView>, Seq<char>>(record_views(d.assertion_sources@))),
                    Err(m) => document_meta_verdict(value@, sv) == Err::<(), Seq<char>>(m@),
                }
            }),
    {
        let ms = match value {
            JsonValue::Object(ms) => ms,
            _ => {
                return Err(String::from_str("$meta must be an object"));
            },
        };
        proof {
            lemma_member_views(ms@);
        }
        assert(value@ == JsonView::Object(member_views(ms@)));
        match unknown_meta_member(ms) {
            Some(i) => {
                return Err(member_message("unknown $meta member ", ms[i].0.as_str()));
            },
            None => {},
        }
        let context = match meta_context(ms) {
            Ok(c) => c,
            Err(m) => {
                return Err(m);
            },
        };
        let graph = match meta_subjects(ms, context.as_ref()) {
            Ok(g) => g,
            Err(m) => {
                return Err(m);
            },
        };
        let records = match sources {
            Ok(rs) => rs,
            Err(m) => {
                return Err(m);
            },
        };
        let empty = EffectiveContext::new();
        let effective = match &context {
            Some(a) => &a.effective,
            None => &empty,
        };
        match check_records(effective, &graph, &records) {
            Ok(_) => {},
            Err(m) => {
                return Err(m);
            },
        }
        Ok(DocumentMeta { context, graph, assertion_sources: records })
    }
}


/// The members a metadata scope is written with: `@context` when it has one, then `facts`
/// when it has any.
pub open spec fn scope_json_members(m: MetadataScope) -> Seq<(Seq<char>, JsonView)> {
    (match m.context {
        Some(c) => seq![("@context"@, c.authored_view())],
        None => Seq::<(Seq<char>, JsonView)>::empty(),
    }) + (if m.facts.properties_view().len() == 0 {
        Seq::<(Seq<char>, JsonView)>::empty()
    } else {
        seq![("facts"@, JsonView::Object(m.facts.properties_view()))]
    })
}

/// Append the members a metadata scope is written with.
pub fn push_scope_members(m: &MetadataScope, out: &mut Vec<(String, JsonValue)>)
    ensures
        member_views(final(out)@) == member_views(old(out)@) + scope_json_members(*m),
{
    let ghost before = member_views(out@);
    match &m.context {
        Some(c) => {
            push_member(out, "@context", c.authored.duplicate());
        },
        None => {},
    }
    let ghost middle = member_views(out@);
    if !m.facts.is_empty() {
        let facts = JsonValue::Object(copy_members(&m.facts.0));
        push_member(out, "facts", facts);
    }
    assert(member_views(out@) =~= before + scope_json_members(*m));
}

impl MetadataScope {
    /// The JSON this scope is written as.
    pub fn to_json(&self) -> (r: JsonValue)
        ensures
            r@ == JsonView::Object(scope_json_members(*self)),
    {
        let mut out: Vec<(String, JsonValue)> = Vec::new();
        assert(member_views(out@) =~= Seq::<(Seq<char>, JsonView)>::empty());
        push_scope_members(self, &mut out);
        assert(member_views(out@) =~= scope_json_members(*self));
        JsonValue::Object(out)
    }
}


// ---------------------------------------------------------------------------
// What accepted metadata satisfies
// ---------------------------------------------------------------------------

/// Whether a value is a string that reads as a node address.
pub open spec fn is_node_address(v: JsonView) -> bool {
    v matches JsonView::Str(u) && address_check(u) is Ok
}

/// Node-link values that are accepted from `j` on are all node address strings.
pub proof fn lemma_accepted_node_links(key: Seq<char>, values: Seq<JsonView>, j: int)
    requires
        0 <= j,
        node_links_from(key, values, j) is Ok,
    ensures
        forall|q: int| j <= q < values.len() ==> is_node_address(#[trigger] values[q]),
    decreases values.len() - j,
{
    if j < values.len() {
        lemma_accepted_node_links(key, values, j + 1);
    }
}

/// Accepted fact properties: every key expands in the scope, and every value of a key that
/// expands to a node link is a node address string.
pub proof fn lemma_accepted_facts(c: ContextView, ms: Seq<(Seq<char>, JsonView)>, i: int)
    requires
        0 <= i,
        facts_from(c, ms, i) is Ok,
    ensures
        forall|k: int| i <= k < ms.len() ==> (#[trigger] key_expansion(c, ms[k].0)) is Ok,
        forall|k: int, q: int|
            i <= k < ms.len() && key_expansion(c, ms[k].0) is Ok && key_expansion(c, ms[k].0)->Ok_0.1
                == Coercion::NodeId && 0 <= q < property_values(ms[k].1).len() ==> is_node_address(
                #[trigger] property_values(ms[k].1)[q],
            ),
    decreases ms.len() - i,
{
    if i < ms.len() {
        lemma_accepted_facts(c, ms, i + 1);
        let links = node_links_from(ms[i].0, property_values(ms[i].1), 0);
        if key_expansion(c, ms[i].0) is Ok && key_expansion(c, ms[i].0)->Ok_0.1 == Coercion::NodeId {
            assert(facts_from(c, ms, i) == match links {
                Err(m) => Err::<(), Seq<char>>(m),
                Ok(_) => facts_from(c, ms, i + 1),
            });
            lemma_accepted_node_links(ms[i].0, property_values(ms[i].1), 0);
        }
    }
}

/// Accepted `@graph` entries: each reads as a subject whose `@id` is a node address and
/// whose other members are accepted fact properties in the document's scope.
pub proof fn lemma_accepted_graph(c: ContextView, items: Seq<JsonView>, i: int)
    requires
        0 <= i,
        graph_from(c, items, i) is Ok,
    ensures
        forall|k: int| i <= k < items.len() ==> (#[trigger] graph_subject(c, items[k])) is Ok,
        forall|k: int| i <= k < items.len() ==> address_check((#[trigger] graph_views(c, items)[k]).id) is Ok
            && facts_verdict(c, JsonView::Object(graph_views(c, items)[k].facts)) is Ok,
    decreases items.len() - i,
{
    if i < items.len() {
        lemma_accepted_graph(c, items, i + 1);
        assert forall|k: int| i <= k < items.len() implies address_check((#[trigger] graph_views(c, items)[k]).id) is Ok
            && facts_verdict(c, JsonView::Object(graph_views(c, items)[k].facts)) is Ok by {
            assert(graph_views(c, items)[k] == graph_subject(c, items[k])->Ok_0);
        }
    }
}

/// Accepted assertion source records: each has a source, selects a document-graph
/// assertion that the graph holds, and repeats no earlier record's selector.
pub proof fn lemma_accepted_records(c: ContextView, graph: Seq<SubjectView>, records: Seq<RecordView>, i: int)
    requires
        0 <= i,
        records_from(c, graph, records, i) is Ok,
    ensures
        forall|k: int| i <= k < records.len() ==> {
            &&& (#[trigger] records[k]).sources.len() > 0
            &&& records[k].selector.carrier == "documentGraph"@
            &&& selector_matched(c, graph, records[k].selector)
            &&& forall|j: int| 0 <= j < k ==> records[j].selector != records[k].selector
        },
    decreases records.len() - i,
{
    if i < records.len() {
        lemma_accepted_records(c, graph, records, i + 1);
    }
}


fn expand_in(c: &EffectiveContext, key: &str) -> (r: Result<crate::metadata::context::ExpandedKey, ContextError>)
    ensures
        match r {
            Ok(k) => key_expansion(c@, key@) == Ok::<(UriView, Coercion), ContextErrorView>((k.uri_view(), k.coercion_of())),
            Err(e) => key_expansion(c@, key@) == Err::<(UriView, Coercion), ContextErrorView>(e@),
        },
{
    proof {
        reveal(key_expansion);
    }
    c.expand_key(key)
}

#[verifier::rlimit(40)]
fn check_node_links(key: &str, value: &JsonValue) -> (r: Result<(), String>)
    ensures
        match r {
            Ok(_) => node_links_from(key@, property_values(value@), 0) == Ok::<(), Seq<char>>(()),
            Err(m) => node_links_from(key@, property_values(value@), 0) == Err::<(), Seq<char>>(m@),
        },
{
    match value {
        JsonValue::Array(items) => {
            proof {
                crate::json::lemma_item_views(items@);
            }
            let ghost iv = crate::json::item_views(items@);
            let mut j: usize = 0;
            while j < items.len()
                invariant
                    j <= items@.len(),
                    *value == JsonValue::Array(*items),
                    iv == crate::json::item_views(items@),
                    iv.len() == items@.len(),
                    forall|q: int| 0 <= q < items@.len() ==> #[trigger] iv[q] == json_view(items@[q]),
                    node_links_from(key@, iv, 0) == node_links_from(key@, iv, j as int),
                decreases items.len() - j,
            {
                assert(iv[j as int] == json_view(items@[j as int]));
                match check_node_link(key, &items[j]) {
                    Ok(_) => {},
                    Err(m) => {
                        return Err(m);
                    },
                }
                j = j + 1;
            }
            assert(value@ == JsonView::Array(iv));
            assert(node_links_from(key@, iv, j as int) == Ok::<(), Seq<char>>(()));
            Ok(())
        },
        _ => {
            let r = check_node_link(key, value);
            assert(property_values(value@) == seq![value@]);
            assert(node_links_from(key@, seq![value@], 1) == Ok::<(), Seq<char>>(()));
            r
        },
    }
}

fn check_node_link(key: &str, value: &JsonValue) -> (r: Result<(), String>)
    ensures
        match value@ {
            JsonView::Str(u) => match address_check(u) {
                Ok(_) => r is Ok,
                Err(e) => r matches Err(m) && m@ == uri_error_message(e),
            },
            _ => r matches Err(m) && m@ == key@ + " requires a node URI string"@,
        },
{
    match value {
        JsonValue::Str(u) => {
            proof {
                reveal(address_check);
            }
            match NodeUri::parse(u.as_str()) {
                Ok(_) => Ok(()),
                Err(e) => Err(e.message()),
            }
        },
        _ => {
            let mut out: Vec<char> = Vec::new();
            push_str_chars(&mut out, key);
            push_str_chars(&mut out, " requires a node URI string");
            Err(string_of(out.as_slice()))
        },
    }
}

// ---------------------------------------------------------------------------
// Reading back a scope's inline spelling
// ---------------------------------------------------------------------------

/// A binding the grammar can write inline and read back: its key a valid term key and no
/// keyword, its target a full address fit for it (a prefix's a declaration stem and never
/// coerced, any other a declaration address).
pub open spec fn writable_binding(t: (Seq<char>, BindingView)) -> bool {
    &&& valid_term_key(t.0)
    &&& !is_keyword_key(t.0)
    &&& has_prefix(t.1.target, authority())
    &&& if t.1.prefix {
        t.1.coercion == Coercion::Plain && valid_stem(t.1.target)
    } else {
        context_target(t.1.target) is Some
    }
}

/// A scope the grammar can write inline and read back: keys in strict order, each binding
/// writable, and a vocabulary that is a declaration stem.
pub open spec fn writable_scope(c: ContextView) -> bool {
    &&& sorted_keys(c.terms)
    &&& forall|i: int| 0 <= i < c.terms.len() ==> writable_binding(#[trigger] c.terms[i])
    &&& match c.vocab {
        Some(v) => valid_stem(v),
        None => true,
    }
}

/// The definition a binding's inline spelling reads as.
pub open spec fn binding_definition(b: BindingView) -> Definition {
    Definition { raw: b.target, prefix: b.prefix, coercion: b.coercion, protected: b.protected }
}

/// A binding's inline spelling reads back as the binding's own definition, and declares a
/// prefix exactly when the binding is one.
proof fn lemma_binding_reads_back(b: BindingView)
    requires
        b.prefix ==> b.coercion == Coercion::Plain,
    ensures
        decode_term(term_of(binding_json(b))) == Ok::<Definition, ContextErrorView>(binding_definition(b)),
        declares_prefix(term_of(binding_json(b))) == b.prefix,
{
    if !b.prefix && !b.protected && b.coercion == Coercion::Plain {
        return;
    }
    reveal_strlit("@id");
    reveal_strlit("@prefix");
    reveal_strlit("@protected");
    reveal_strlit("@type");
    reveal_strlit("@json");
    assert("@id"@.len() == 3 && "@prefix"@.len() == 7 && "@protected"@.len() == 10 && "@type"@.len() == 5);
    assert("@type"@ != "@protected"@ && "@type"@ != "@prefix"@ && "@protected"@ != "@prefix"@);
    assert("@id"@ != "@protected"@ && "@id"@ != "@prefix"@ && "@id"@ != "@type"@);
    let opt_prefix = if b.prefix {
        seq![("@prefix"@, MemberView::Bool(true))]
    } else {
        Seq::<(Seq<char>, MemberView)>::empty()
    };
    let opt_protected = if b.protected {
        seq![("@protected"@, MemberView::Bool(true))]
    } else {
        Seq::<(Seq<char>, MemberView)>::empty()
    };
    let opt_type = match b.coercion {
        Coercion::Plain => Seq::<(Seq<char>, MemberView)>::empty(),
        Coercion::NodeId => seq![("@type"@, MemberView::Str("@id"@))],
        Coercion::Json => seq![("@type"@, MemberView::Str("@json"@))],
    };
    let rest3 = opt_type;
    let rest2 = opt_protected + rest3;
    let rest1 = opt_prefix + rest2;
    let mv = seq![("@id"@, MemberView::Str(b.target))] + rest1;
    let json_members = match binding_json(b) {
        JsonView::Object(ms) => ms,
        _ => Seq::empty(),
    };
    assert(member_seq(json_members) =~= mv);
    assert(term_of(binding_json(b)) == TermView::Object(mv));
    assert(mv.drop_first() =~= rest1);
    // What each member name finds.
    if rest3.len() > 0 {
        assert(rest3.drop_first() =~= Seq::<(Seq<char>, MemberView)>::empty());
        assert(member_get(rest3.drop_first(), "@protected"@) is None);
        assert(member_get(rest3.drop_first(), "@prefix"@) is None);
        assert(first_unknown_member(rest3.drop_first()) is None);
    }
    assert(member_get(rest3, "@type"@) == match b.coercion {
        Coercion::Plain => None::<MemberView>,
        Coercion::NodeId => Some(MemberView::Str("@id"@)),
        Coercion::Json => Some(MemberView::Str("@json"@)),
    });
    assert(member_get(rest3, "@protected"@) is None);
    assert(member_get(rest3, "@prefix"@) is None);
    assert(first_unknown_member(rest3) is None);
    if b.protected {
        assert(rest2.drop_first() =~= rest3);
    } else {
        assert(rest2 =~= rest3);
    }
    assert(member_get(rest2, "@protected"@) == if b.protected {
        Some(MemberView::Bool(true))
    } else {
        None::<MemberView>
    });
    assert(member_get(rest2, "@prefix"@) is None);
    assert(member_get(rest2, "@type"@) == member_get(rest3, "@type"@));
    assert(first_unknown_member(rest2) is None);
    if b.prefix {
        assert(rest1.drop_first() =~= rest2);
    } else {
        assert(rest1 =~= rest2);
    }
    assert(member_get(rest1, "@prefix"@) == if b.prefix {
        Some(MemberView::Bool(true))
    } else {
        None::<MemberView>
    });
    assert(member_get(rest1, "@protected"@) == member_get(rest2, "@protected"@));
    assert(member_get(rest1, "@type"@) == member_get(rest3, "@type"@));
    assert(first_unknown_member(rest1) is None);
    assert(member_get(mv, "@id"@) == Some(MemberView::Str(b.target)));
    assert(member_get(mv, "@prefix"@) == member_get(rest1, "@prefix"@));
    assert(member_get(mv, "@protected"@) == member_get(rest2, "@protected"@));
    assert(member_get(mv, "@type"@) == member_get(rest3, "@type"@));
    assert(first_unknown_member(mv) is None);
}

/// What a scope's terms look up while its inline spelling is installed: during the prefix
/// pass, the prefixes among the first `n` terms; during the second pass, every prefix and
/// the first `n` terms.
pub open spec fn pass_lookup(c: ContextView, prefixes: bool, n: int, k: Seq<char>) -> Option<BindingView> {
    if prefixes {
        match lookup(c.terms.take(n), k) {
            Some(b) => if b.prefix {
                Some(b)
            } else {
                None
            },
            None => None,
        }
    } else {
        match lookup(c.terms, k) {
            Some(b) => if b.prefix {
                Some(b)
            } else {
                lookup(c.terms.take(n), k)
            },
            None => None,
        }
    }
}

#[verifier::rlimit(60)]
#[verifier::spinoff_prover]
/// One pass of installing a writable scope's inline spelling, from member `i` on, builds
/// the terms the pass is meant to.
proof fn lemma_install_pass(
    c: ContextView,
    ms: Seq<(Seq<char>, TermView)>,
    off: int,
    prefixes: bool,
    i: int,
    cur: ContextView,
) -> (r: ContextView)
    requires
        writable_scope(c),
        0 <= off <= i <= ms.len(),
        ms.len() == off + c.terms.len(),
        forall|j: int|
            0 <= j < c.terms.len() ==> ms[off + j] == (
                #[trigger] c.terms[j].0,
                term_of(binding_json(c.terms[j].1)),
            ),
        sorted_keys(cur.terms),
        cur.vocab == c.vocab,
        forall|k: Seq<char>| lookup(cur.terms, k) == pass_lookup(c, prefixes, i - off, k),
    ensures
        install_from(cur, ms, prefixes, i) == Ok::<ContextView, ContextErrorView>(r),
        sorted_keys(r.terms),
        r.vocab == c.vocab,
        forall|k: Seq<char>| lookup(r.terms, k) == pass_lookup(c, prefixes, c.terms.len() as int, k),
    decreases ms.len() - i,
{
    if i >= ms.len() {
        return cur;
    }
    let j = i - off;
    let (k, b) = c.terms[j];
    assert(ms[i] == (k, term_of(binding_json(b)))) by {
        assert(c.terms[j].0 == k);
    }
    assert(writable_binding(c.terms[j]));
    lemma_binding_reads_back(b);
    if b.prefix == prefixes {
        lemma_pass_takes(c, prefixes, j, cur);
        let next = ContextView { terms: put(cur.terms, k, b), vocab: cur.vocab };
        lemma_install_step(cur, k, b);
        lemma_install_pass(c, ms, off, prefixes, i + 1, next)
    } else {
        lemma_pass_skips(c, prefixes, j, cur);
        lemma_install_pass(c, ms, off, prefixes, i + 1, cur)
    }
}

#[verifier::spinoff_prover]
/// Installing a writable binding whose key is not yet bound puts it in place.
proof fn lemma_install_step(cur: ContextView, k: Seq<char>, b: BindingView)
    requires
        writable_binding((k, b)),
        lookup(cur.terms, k) is None,
        decode_term(term_of(binding_json(b))) == Ok::<Definition, ContextErrorView>(binding_definition(b)),
    ensures
        install_spec(cur, k, term_of(binding_json(b))) == Ok::<ContextView, ContextErrorView>(
            ContextView { terms: put(cur.terms, k, b), vocab: cur.vocab },
        ),
{
    assert(expanded_target(cur, b.target) == Ok::<Seq<char>, ContextErrorView>(b.target));
}

/// The term a pass installs at position `j` was unbound, and installing it moves the pass
/// on by one.
proof fn lemma_pass_takes(c: ContextView, prefixes: bool, j: int, cur: ContextView)
    requires
        sorted_keys(c.terms),
        0 <= j < c.terms.len(),
        c.terms[j].1.prefix == prefixes,
        sorted_keys(cur.terms),
        forall|k: Seq<char>| lookup(cur.terms, k) == pass_lookup(c, prefixes, j, k),
    ensures
        lookup(cur.terms, c.terms[j].0) is None,
        sorted_keys(put(cur.terms, c.terms[j].0, c.terms[j].1)),
        forall|k: Seq<char>| lookup(put(cur.terms, c.terms[j].0, c.terms[j].1), k) == pass_lookup(
            c,
            prefixes,
            j + 1,
            k,
        ),
{
    let (k, b) = c.terms[j];
    lemma_lookup_take_step(c.terms, j, k);
    lemma_lookup_sorted(c.terms, k);
    assert(lookup(cur.terms, k) == pass_lookup(c, prefixes, j, k));
    lemma_put(cur.terms, k, b, k);
    assert forall|k2: Seq<char>| lookup(put(cur.terms, k, b), k2) == pass_lookup(c, prefixes, j + 1, k2) by {
        lemma_put(cur.terms, k, b, k2);
        lemma_lookup_take_step(c.terms, j, k2);
        assert(lookup(cur.terms, k2) == pass_lookup(c, prefixes, j, k2));
    }
}

/// A term a pass does not install leaves what the pass has built as it was.
proof fn lemma_pass_skips(c: ContextView, prefixes: bool, j: int, cur: ContextView)
    requires
        sorted_keys(c.terms),
        0 <= j < c.terms.len(),
        c.terms[j].1.prefix != prefixes,
        forall|k: Seq<char>| lookup(cur.terms, k) == pass_lookup(c, prefixes, j, k),
    ensures
        forall|k: Seq<char>| lookup(cur.terms, k) == pass_lookup(c, prefixes, j + 1, k),
{
    let k = c.terms[j].0;
    lemma_lookup_sorted(c.terms, k);
    assert forall|k2: Seq<char>| lookup(cur.terms, k2) == pass_lookup(c, prefixes, j + 1, k2) by {
        lemma_lookup_take_step(c.terms, j, k2);
        assert(lookup(cur.terms, k2) == pass_lookup(c, prefixes, j, k2));
    }
}

/// No member of `ms` from `i` on is named `name`, so looking it up finds nothing.
proof fn lemma_term_get_absent(ms: Seq<(Seq<char>, TermView)>, name: Seq<char>)
    requires
        forall|i: int| 0 <= i < ms.len() ==> (#[trigger] ms[i]).0 != name,
    ensures
        term_get(ms, name) is None,
    decreases ms.len(),
{
    if ms.len() > 0 {
        assert forall|i: int| 0 <= i < ms.drop_first().len() implies (#[trigger] ms.drop_first()[i]).0 != name by {
            assert(ms.drop_first()[i] == ms[i + 1]);
        }
        lemma_term_get_absent(ms.drop_first(), name);
    }
}

/// A list whose only keyword key is `@vocab` names no other keyword.
proof fn lemma_no_other_keyword(ms: Seq<(Seq<char>, TermView)>)
    requires
        forall|i: int| 0 <= i < ms.len() ==> !is_keyword_key((#[trigger] ms[i]).0) || ms[i].0 == "@vocab"@,
    ensures
        first_keyword(ms) is None,
    decreases ms.len(),
{
    if ms.len() > 0 {
        assert forall|i: int| 0 <= i < ms.drop_first().len() implies !is_keyword_key((#[trigger] ms.drop_first()[i]).0)
            || ms.drop_first()[i].0 == "@vocab"@ by {
            assert(ms.drop_first()[i] == ms[i + 1]);
        }
        lemma_no_other_keyword(ms.drop_first());
    }
}

#[verifier::rlimit(60)]
#[verifier::spinoff_prover]
/// Reading back a writable scope's inline spelling, with no context resource, gives the
/// scope back: the spelling is self-contained.
pub proof fn lemma_inline_context_reads_back(c: ContextView)
    requires
        writable_scope(c),
    ensures
        authored_context(inline_context_json(c)) == Ok::<ContextView, ContextErrorView>(c),
{
    reveal_strlit("@vocab");
    let head = match c.vocab {
        Some(v) => seq![("@vocab"@, JsonView::Str(v))],
        None => Seq::<(Seq<char>, JsonView)>::empty(),
    };
    let body = c.terms.map_values(|t: (Seq<char>, BindingView)| (t.0, binding_json(t.1)));
    let members = head + body;
    assert(inline_context_json(c) == JsonView::Object(members));
    let ms = inline_terms(members);
    let off = head.len() as int;
    assert(ms.len() == off + c.terms.len());
    assert forall|j: int| 0 <= j < c.terms.len() implies ms[off + j] == (
        #[trigger] c.terms[j].0,
        term_of(binding_json(c.terms[j].1)),
    ) by {
        assert(members[off + j] == body[j]);
    }
    assert forall|i: int| 0 <= i < ms.len() implies !is_keyword_key((#[trigger] ms[i]).0) || ms[i].0 == "@vocab"@ by {
        if i >= off {
            assert(ms[i].0 == c.terms[i - off].0);
            assert(writable_binding(c.terms[i - off]));
        }
    }
    lemma_no_other_keyword(ms);
    assert(is_keyword_key("@vocab"@));
    let c1 = ContextView { terms: Seq::<(Seq<char>, BindingView)>::empty(), vocab: c.vocab };
    match c.vocab {
        Some(v) => {
            assert(ms[0] == ("@vocab"@, TermView::Str(v)));
            assert(term_get(ms, "@vocab"@) == Some(TermView::Str(v)));
            assert(install_from(c1, ms, true, 0) == install_from(c1, ms, true, 1));
        },
        None => {
            assert forall|i: int| 0 <= i < ms.len() implies (#[trigger] ms[i]).0 != "@vocab"@ by {
                assert(ms[i].0 == c.terms[i].0);
                assert(writable_binding(c.terms[i]));
            }
            lemma_term_get_absent(ms, "@vocab"@);
        },
    }
    assert(c.terms.take(0) =~= Seq::<(Seq<char>, BindingView)>::empty());
    assert forall|k: Seq<char>| lookup(c1.terms, k) == pass_lookup(c, true, off - off, k) by {}
    let r1 = lemma_install_pass(c, ms, off, true, off, c1);
    assert(c.terms.take(c.terms.len() as int) =~= c.terms);
    assert forall|k: Seq<char>| lookup(r1.terms, k) == pass_lookup(c, false, off - off, k) by {}
    if off == 1 {
        assert(install_from(r1, ms, false, 0) == install_from(r1, ms, false, 1));
    }
    let r2 = lemma_install_pass(c, ms, off, false, off, r1);
    assert forall|k: Seq<char>| lookup(r2.terms, k) == lookup(c.terms, k) by {}
    lemma_sorted_lookup_eq(r2.terms, c.terms);
    assert(r2 == c);
}

} // verus!
