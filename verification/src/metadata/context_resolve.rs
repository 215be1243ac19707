//! Resolving an authored `@context` value: inline definitions, imports of supplied context
//! resources, and arrays of imports closed by one inline object, with the import closure's
//! cycle, depth and repeat checks.

use crate::json::{
    first_member, first_member_index, get_member, item_views, lemma_first_member, lemma_item_views, lemma_item_views_push,
    lemma_member_views, lemma_member_views_push, lemma_member_views_update, member_named, JsonValue, JsonView,
};
use crate::metadata::context::{
    apply_imports_spec, begin_spec, inline_context_json, empty_context_view, inline_spec, inline_views,
    list_action, list_action_spec, load_spec, merge_spec, reference_target, BaseView, ContextBase, ContextError,
    ContextErrorView, ContextResources, ContextView, EffectiveContext, ImportState, ImportStateView, ListAction,
    ListItemKind, MemberValue, MemberView, ResourcesView, TermValue, TermView, MAX_CONTEXT_IMPORT_DEPTH,
};
use crate::text::str_eq;
use vstd::prelude::*;

verus! {

/// What the supplied resources' bytes parse to: each entry is a resource's bytes and the JSON
/// value they read as, or `None` where they are not JSON with unique member names.
pub struct ParsedResources {
    entries: Vec<(Vec<u8>, Option<JsonValue>)>,
}

pub open spec fn doc_view(d: Option<JsonValue>) -> Option<JsonView> {
    match d {
        Some(v) => Some(v@),
        None => None,
    }
}

impl View for ParsedResources {
    type V = Seq<(Seq<u8>, Option<JsonView>)>;

    closed spec fn view(&self) -> Seq<(Seq<u8>, Option<JsonView>)> {
        self.entries@.map_values(|e: (Vec<u8>, Option<JsonValue>)| (e.0@, doc_view(e.1)))
    }
}

impl ParsedResources {
    /// No parsed resources.
    pub fn new() -> (r: ParsedResources)
        ensures
            r@ == Seq::<(Seq<u8>, Option<JsonView>)>::empty(),
    {
        let r = ParsedResources { entries: Vec::new() };
        assert(r@ =~= Seq::<(Seq<u8>, Option<JsonView>)>::empty());
        r
    }

    /// Record what `bytes` parse to.
    pub fn insert(&mut self, bytes: Vec<u8>, document: Option<JsonValue>)
        ensures
            final(self)@ == old(self)@.push((bytes@, doc_view(document))),
    {
        let ghost before = self.entries@;
        self.entries.push((bytes, document));
        assert(self@ =~= before.map_values(|e: (Vec<u8>, Option<JsonValue>)| (e.0@, doc_view(e.1))).push(
            (bytes@, doc_view(document)),
        ));
    }
}

/// What the first entry for `bytes` records them to parse to; `None` where there is none.
pub open spec fn parsed_lookup(docs: Seq<(Seq<u8>, Option<JsonView>)>, bytes: Seq<u8>) -> Option<JsonView>
    decreases docs.len(),
{
    if docs.len() == 0 {
        None
    } else if docs[0].0 == bytes {
        docs[0].1
    } else {
        parsed_lookup(docs.drop_first(), bytes)
    }
}

fn bytes_eq(a: &[u8], b: &[u8]) -> (r: bool)
    ensures
        r == (a@ == b@),
{
    if a.len() != b.len() {
        return false;
    }
    let mut i: usize = 0;
    while i < a.len()
        invariant
            i <= a@.len(),
            a@.len() == b@.len(),
            forall|j: int| 0 <= j < i ==> a@[j] == b@[j],
        decreases a.len() - i,
    {
        if a[i] != b[i] {
            return false;
        }
        i = i + 1;
    }
    assert(a@ =~= b@);
    true
}

impl ParsedResources {
    /// What `bytes` were recorded to parse to.
    pub fn lookup(&self, bytes: &[u8]) -> (r: Option<&JsonValue>)
        ensures
            match r {
                Some(v) => parsed_lookup(self@, bytes@) == Some(v@),
                None => parsed_lookup(self@, bytes@) is None,
            },
    {
        let ghost all = self@;
        let mut i: usize = 0;
        assert(all.skip(0) =~= all);
        while i < self.entries.len()
            invariant
                i <= self.entries@.len(),
                all == self@,
                all.len() == self.entries@.len(),
                parsed_lookup(all, bytes@) == parsed_lookup(all.skip(i as int), bytes@),
            decreases self.entries.len() - i,
        {
            assert(all.skip(i as int)[0] == all[i as int]);
            assert(all.skip(i as int).drop_first() =~= all.skip(i as int + 1));
            if bytes_eq(self.entries[i].0.as_slice(), bytes) {
                return match &self.entries[i].1 {
                    Some(v) => Some(v),
                    None => None,
                };
            }
            i = i + 1;
        }
        assert(all.skip(i as int) =~= Seq::<(Seq<u8>, Option<JsonView>)>::empty());
        None
    }
}

// ---------------------------------------------------------------------------
// What the grammar reads of JSON
// ---------------------------------------------------------------------------

/// What the grammar reads of one member of a term definition object.
pub open spec fn member_term(v: JsonView) -> MemberView {
    match v {
        JsonView::Str(s) => MemberView::Str(s),
        JsonView::Bool(b) => MemberView::Bool(b),
        _ => MemberView::Other,
    }
}

/// What the grammar reads of an authored term definition.
pub open spec fn term_of(v: JsonView) -> TermView {
    match v {
        JsonView::Str(s) => TermView::Str(s),
        JsonView::Object(ms) => TermView::Object(ms.map_values(|m: (Seq<char>, JsonView)| (m.0, member_term(m.1)))),
        _ => TermView::Other,
    }
}

/// The members of an inline context object, as the grammar reads them.
pub open spec fn inline_terms(ms: Seq<(Seq<char>, JsonView)>) -> Seq<(Seq<char>, TermView)> {
    ms.map_values(|m: (Seq<char>, JsonView)| (m.0, term_of(m.1)))
}

/// The kind of one item of an authored context array.
pub open spec fn item_kind(v: JsonView) -> ListItemKind {
    match v {
        JsonView::Str(_) => ListItemKind::Reference,
        JsonView::Object(_) => ListItemKind::Inline,
        _ => ListItemKind::Other,
    }
}

/// The context a parsed resource carries: the value of an object whose one member is
/// `@context`.
pub open spec fn envelope(doc: Option<JsonView>) -> Option<JsonView> {
    match doc {
        Some(JsonView::Object(ms)) => if ms.len() == 1 && ms[0].0 == "@context"@ {
            Some(ms[0].1)
        } else {
            None
        },
        _ => None,
    }
}

fn member_value(v: &JsonValue) -> (r: MemberValue)
    ensures
        r@ == member_term(v@),
{
    match v {
        JsonValue::Str(s) => MemberValue::Str(s.clone()),
        JsonValue::Bool(b) => MemberValue::Bool(*b),
        _ => MemberValue::Other,
    }
}

fn term_value(v: &JsonValue) -> (r: TermValue)
    ensures
        r@ == term_of(v@),
{
    match v {
        JsonValue::Str(s) => TermValue::Str(s.clone()),
        JsonValue::Object(ms) => {
            proof {
                crate::json::lemma_member_views(ms@);
            }
            let mut out: Vec<(String, MemberValue)> = Vec::new();
            let mut i: usize = 0;
            while i < ms.len()
                invariant
                    i <= ms@.len(),
                    out@.len() == i,
                    crate::json::member_views(ms@).len() == ms@.len(),
                    forall|q: int| 0 <= q < ms@.len() ==> #[trigger] crate::json::member_views(ms@)[q] == (ms@[q].0@, ms@[q].1@),
                    forall|q: int| 0 <= q < i ==> (#[trigger] out@[q]).0@ == ms@[q].0@ && out@[q].1@ == member_term(ms@[q].1@),
                decreases ms.len() - i,
            {
                out.push((ms[i].0.clone(), member_value(&ms[i].1)));
                i = i + 1;
            }
            let r = TermValue::Object(out);
            assert(crate::metadata::context::member_views(out@) =~= crate::json::member_views(ms@).map_values(
                |m: (Seq<char>, JsonView)| (m.0, member_term(m.1)),
            ));
            r
        },
        _ => TermValue::Other,
    }
}

fn inline_members(ms: &Vec<(String, JsonValue)>) -> (r: Vec<(String, TermValue)>)
    ensures
        inline_views(r@) == inline_terms(crate::json::member_views(ms@)),
{
    proof {
        crate::json::lemma_member_views(ms@);
    }
    let mut out: Vec<(String, TermValue)> = Vec::new();
    let mut i: usize = 0;
    while i < ms.len()
        invariant
            i <= ms@.len(),
            out@.len() == i,
            crate::json::member_views(ms@).len() == ms@.len(),
            forall|q: int| 0 <= q < ms@.len() ==> #[trigger] crate::json::member_views(ms@)[q] == (ms@[q].0@, ms@[q].1@),
            forall|q: int| 0 <= q < i ==> (#[trigger] out@[q]).0@ == ms@[q].0@ && out@[q].1@ == term_of(ms@[q].1@),
        decreases ms.len() - i,
    {
        out.push((ms[i].0.clone(), term_value(&ms[i].1)));
        i = i + 1;
    }
    assert(inline_views(out@) =~= inline_terms(crate::json::member_views(ms@)));
    out
}

// ---------------------------------------------------------------------------
// Resolution
// ---------------------------------------------------------------------------

/// The import state with `identity` entered into the chain being resolved.
pub open spec fn entered(st: ImportStateView, identity: Seq<char>) -> ImportStateView {
    ImportStateView { seen: st.seen, active: st.active.push(identity) }
}

/// The import state with `identity` left.
pub open spec fn left(st: ImportStateView, identity: Seq<char>) -> ImportStateView {
    ImportStateView { seen: st.seen, active: st.active.filter(|a: Seq<char>| a != identity) }
}

/// Resolving an authored context value over `parent`, read from a context that came from
/// `base`, with the import state `st`: the scope it gives, or the error it stops on, and the
/// import state after it. `fuel` bounds the nesting of imports, as the import state's own
/// depth check does.
pub open spec fn resolve_value_spec(
    res: ResourcesView,
    docs: Seq<(Seq<u8>, Option<JsonView>)>,
    parent: ContextView,
    authored: JsonView,
    base: BaseView,
    st: ImportStateView,
    fuel: nat,
) -> (Result<ContextView, ContextErrorView>, ImportStateView)
    decreases fuel, 2int, 0int,
{
    match authored {
        JsonView::Object(ms) => (inline_spec(parent, inline_terms(ms)), st),
        JsonView::Str(reference) => {
            let (r, st2) = resolve_import_spec(res, docs, reference, base, st, fuel);
            (
                match r {
                    Ok(imp) => apply_imports_spec(parent, imp),
                    Err(e) => Err(e),
                },
                st2,
            )
        },
        JsonView::Array(items) => if items.len() == 0 {
            (Err(ContextErrorView::InvalidForm), st)
        } else {
            let (r, st2) = resolve_items_spec(res, docs, empty_context_view(), None, items, 0, base, st, fuel);
            (
                match r {
                    Err(e) => Err(e),
                    Ok((imports, inline)) => match apply_imports_spec(parent, imports) {
                        Err(e) => Err(e),
                        Ok(c) => match inline {
                            Some(ms) => inline_spec(c, inline_terms(ms)),
                            None => Ok(c),
                        },
                    },
                },
                st2,
            )
        },
        _ => (Err(ContextErrorView::InvalidForm), st),
    }
}

/// Reading the items of an authored context array from `i` on: references are imported and
/// merged into `imports`, and the one inline object, which comes last, is kept.
pub open spec fn resolve_items_spec(
    res: ResourcesView,
    docs: Seq<(Seq<u8>, Option<JsonView>)>,
    imports: ContextView,
    inline: Option<Seq<(Seq<char>, JsonView)>>,
    items: Seq<JsonView>,
    i: int,
    base: BaseView,
    st: ImportStateView,
    fuel: nat,
) -> (Result<(ContextView, Option<Seq<(Seq<char>, JsonView)>>), ContextErrorView>, ImportStateView)
    decreases fuel, 1int, items.len() - i,
{
    if i < 0 || i >= items.len() {
        (Ok((imports, inline)), st)
    } else {
        match list_action_spec(i, items.len() as int, item_kind(items[i]), inline is Some) {
            Err(e) => (Err(e), st),
            Ok(ListAction::Import) => {
                let reference = match items[i] {
                    JsonView::Str(t) => t,
                    _ => Seq::<char>::empty(),
                };
                let (r, st2) = resolve_import_spec(res, docs, reference, base, st, fuel);
                match r {
                    Err(e) => (Err(e), st2),
                    Ok(imp) => match merge_spec(imports, imp) {
                        Err(e) => (Err(e), st2),
                        Ok(m) => resolve_items_spec(res, docs, m, inline, items, i + 1, base, st2, fuel),
                    },
                }
            },
            Ok(ListAction::Inline) => {
                let kept = match items[i] {
                    JsonView::Object(ms) => Some(ms),
                    _ => None,
                };
                resolve_items_spec(res, docs, imports, kept, items, i + 1, base, st, fuel)
            },
        }
    }
}

/// Importing the context resource `reference` names: its target, the closure's checks, its
/// bytes, their parse and envelope, then the context it carries resolved from scratch with it
/// in the chain.
pub open spec fn resolve_import_spec(
    res: ResourcesView,
    docs: Seq<(Seq<u8>, Option<JsonView>)>,
    reference: Seq<char>,
    base: BaseView,
    st: ImportStateView,
    fuel: nat,
) -> (Result<ContextView, ContextErrorView>, ImportStateView)
    decreases fuel, 0int, 0int,
{
    match reference_target(res.root, reference, base) {
        Err(e) => (Err(e), st),
        Ok((identity, hashed)) => match begin_spec(st, identity) {
            Err(e) => (Err(e), st),
            Ok(st1) => match load_spec(res.loaded, identity, hashed, reference) {
                Err(e) => (Err(e), st1),
                Ok(bytes) => match envelope(parsed_lookup(docs, bytes)) {
                    None => (Err(ContextErrorView::InvalidResource(identity)), st1),
                    Some(ctx) => if fuel == 0 {
                        (Err(ContextErrorView::ImportDepthExceeded(MAX_CONTEXT_IMPORT_DEPTH)), st1)
                    } else {
                        let nested = if hashed {
                            BaseView::ContentAddressed
                        } else {
                            BaseView::Local(identity)
                        };
                        let (r, st3) = resolve_value_spec(
                            res,
                            docs,
                            empty_context_view(),
                            ctx,
                            nested,
                            entered(st1, identity),
                            (fuel - 1) as nat,
                        );
                        (r, left(st3, identity))
                    },
                },
            },
        },
    }
}

/// What resolving `authored` over `parent` (the empty scope where there is none) gives, with
/// `base_file` the local context file it sits in, if any.
pub open spec fn resolve_context_spec(
    parent: Option<ContextView>,
    authored: JsonView,
    res: ResourcesView,
    docs: Seq<(Seq<u8>, Option<JsonView>)>,
    base_file: Option<Seq<char>>,
) -> Result<ContextView, ContextErrorView> {
    let base = match base_file {
        Some(f) => BaseView::Local(f),
        None => BaseView::Workspace,
    };
    let p = match parent {
        Some(c) => c,
        None => empty_context_view(),
    };
    let st = ImportStateView { seen: Seq::<Seq<char>>::empty(), active: Seq::<Seq<char>>::empty() };
    resolve_value_spec(res, docs, p, authored, base, st, MAX_CONTEXT_IMPORT_DEPTH as nat).0
}

pub open spec fn inline_view(inline: Option<&Vec<(String, JsonValue)>>) -> Option<Seq<(Seq<char>, JsonView)>> {
    match inline {
        Some(ms) => Some(crate::json::member_views(ms@)),
        None => None,
    }
}

fn resolve_value(
    parent: EffectiveContext,
    authored: &JsonValue,
    resources: &ContextResources,
    docs: &ParsedResources,
    base: &ContextBase,
    state: &mut ImportState,
    fuel: usize,
) -> (r: Result<EffectiveContext, ContextError>)
    ensures
        resolve_value_spec(resources@, docs@, parent@, authored@, base@, old(state)@, fuel as nat).1 == final(state)@,
        match r {
            Ok(c) => resolve_value_spec(resources@, docs@, parent@, authored@, base@, old(state)@, fuel as nat).0
                == Ok::<ContextView, ContextErrorView>(c@),
            Err(e) => resolve_value_spec(resources@, docs@, parent@, authored@, base@, old(state)@, fuel as nat).0
                == Err::<ContextView, ContextErrorView>(e@),
        },
    decreases fuel, 2int, 0int,
{
    let mut parent = parent;
    match authored {
        JsonValue::Object(ms) => {
            let members = inline_members(ms);
            match parent.apply_inline(&members) {
                Ok(_) => Ok(parent),
                Err(e) => Err(e),
            }
        },
        JsonValue::Str(reference) => {
            let imported = match resolve_import(reference.as_str(), resources, docs, base, state, fuel) {
                Ok(c) => c,
                Err(e) => {
                    return Err(e);
                },
            };
            match parent.apply_imports(&imported) {
                Ok(_) => Ok(parent),
                Err(e) => Err(e),
            }
        },
        JsonValue::Array(items) => {
            if items.len() == 0 {
                return Err(ContextError::InvalidForm);
            }
            let (imports, inline) = match resolve_items(
                EffectiveContext::new(),
                None,
                items,
                0,
                resources,
                docs,
                base,
                state,
                fuel,
            ) {
                Ok(found) => found,
                Err(e) => {
                    return Err(e);
                },
            };
            match parent.apply_imports(&imports) {
                Ok(_) => {},
                Err(e) => {
                    return Err(e);
                },
            }
            match inline {
                Some(ms) => {
                    let members = inline_members(ms);
                    match parent.apply_inline(&members) {
                        Ok(_) => Ok(parent),
                        Err(e) => Err(e),
                    }
                },
                None => Ok(parent),
            }
        },
        _ => Err(ContextError::InvalidForm),
    }
}

fn resolve_items<'a>(
    imports: EffectiveContext,
    inline: Option<&'a Vec<(String, JsonValue)>>,
    items: &'a Vec<JsonValue>,
    i: usize,
    resources: &ContextResources,
    docs: &ParsedResources,
    base: &ContextBase,
    state: &mut ImportState,
    fuel: usize,
) -> (r: Result<(EffectiveContext, Option<&'a Vec<(String, JsonValue)>>), ContextError>)
    requires
        i <= items@.len(),
    ensures
        resolve_items_spec(resources@, docs@, imports@, inline_view(inline), crate::json::item_views(items@), i as int, base@, old(state)@, fuel as nat).1
            == final(state)@,
        match r {
            Ok((c, inl)) => resolve_items_spec(resources@, docs@, imports@, inline_view(inline), crate::json::item_views(items@), i as int, base@, old(state)@, fuel as nat).0
                == Ok::<(ContextView, Option<Seq<(Seq<char>, JsonView)>>), ContextErrorView>((c@, inline_view(inl))),
            Err(e) => resolve_items_spec(resources@, docs@, imports@, inline_view(inline), crate::json::item_views(items@), i as int, base@, old(state)@, fuel as nat).0
                == Err::<(ContextView, Option<Seq<(Seq<char>, JsonView)>>), ContextErrorView>(e@),
        },
    decreases fuel, 1int, items@.len() - i,
{
    proof {
        crate::json::lemma_item_views(items@);
    }
    let ghost views = crate::json::item_views(items@);
    if i >= items.len() {
        return Ok((imports, inline));
    }
    assert(views[i as int] == items@[i as int]@);
    let kind = match &items[i] {
        JsonValue::Str(_) => ListItemKind::Reference,
        JsonValue::Object(_) => ListItemKind::Inline,
        _ => ListItemKind::Other,
    };
    match list_action(i, items.len(), kind, inline.is_some()) {
        Err(e) => Err(e),
        Ok(ListAction::Import) => {
            let reference: &str = match &items[i] {
                JsonValue::Str(t) => t.as_str(),
                _ => "",
            };
            let imported = match resolve_import(reference, resources, docs, base, state, fuel) {
                Ok(c) => c,
                Err(e) => {
                    return Err(e);
                },
            };
            let mut merged = imports;
            match merged.merge_import(&imported) {
                Ok(_) => {},
                Err(e) => {
                    return Err(e);
                },
            }
            resolve_items(merged, inline, items, i + 1, resources, docs, base, state, fuel)
        },
        Ok(ListAction::Inline) => {
            let kept = match &items[i] {
                JsonValue::Object(ms) => Some(ms),
                _ => None,
            };
            resolve_items(imports, kept, items, i + 1, resources, docs, base, state, fuel)
        },
    }
}

fn resolve_import(
    reference: &str,
    resources: &ContextResources,
    docs: &ParsedResources,
    base: &ContextBase,
    state: &mut ImportState,
    fuel: usize,
) -> (r: Result<EffectiveContext, ContextError>)
    ensures
        resolve_import_spec(resources@, docs@, reference@, base@, old(state)@, fuel as nat).1 == final(state)@,
        match r {
            Ok(c) => resolve_import_spec(resources@, docs@, reference@, base@, old(state)@, fuel as nat).0
                == Ok::<ContextView, ContextErrorView>(c@),
            Err(e) => resolve_import_spec(resources@, docs@, reference@, base@, old(state)@, fuel as nat).0
                == Err::<ContextView, ContextErrorView>(e@),
        },
    decreases fuel, 0int, 0int,
{
    let target = match resources.import_target(reference, base) {
        Ok(t) => t,
        Err(e) => {
            return Err(e);
        },
    };
    match state.begin(target.identity.as_str()) {
        Ok(_) => {},
        Err(e) => {
            return Err(e);
        },
    }
    let bytes = match resources.load(&target, reference) {
        Ok(b) => b,
        Err(e) => {
            return Err(e);
        },
    };
    let ctx: &JsonValue = match docs.lookup(bytes) {
        Some(JsonValue::Object(ms)) => {
            proof {
                crate::json::lemma_member_views(ms@);
            }
            if ms.len() == 1 && str_eq(ms[0].0.as_str(), "@context") {
                &ms[0].1
            } else {
                return Err(ContextError::InvalidResource(target.identity.clone()));
            }
        },
        _ => {
            return Err(ContextError::InvalidResource(target.identity.clone()));
        },
    };
    if fuel == 0 {
        return Err(ContextError::ImportDepthExceeded(MAX_CONTEXT_IMPORT_DEPTH));
    }
    state.enter(target.identity.as_str());
    let nested = if target.hashed {
        ContextBase::ContentAddressed
    } else {
        ContextBase::Local(target.identity.clone())
    };
    let fresh = EffectiveContext::new();
    assert(fresh@ == empty_context_view()) by {
        assert(fresh@.terms =~= empty_context_view().terms);
    }
    let result = resolve_value(fresh, ctx, resources, docs, &nested, state, fuel - 1);
    state.leave(target.identity.as_str());
    result
}

/// Resolve an authored `@context` value over a parent scope and the supplied resources, with
/// `docs` recording what the resources' bytes parse to. `base_file` names the local context
/// file the value sits in, if any. Reuse the same parent for sibling scopes so their local
/// bindings stay apart.
pub fn resolve_context(
    parent: Option<&EffectiveContext>,
    authored: &JsonValue,
    resources: &ContextResources,
    docs: &ParsedResources,
    base_file: Option<&str>,
) -> (r: Result<EffectiveContext, ContextError>)
    ensures
        ({
            let p = match parent {
                Some(c) => Some(c@),
                None => None,
            };
            let f = match base_file {
                Some(b) => Some(b@),
                None => None,
            };
            match r {
                Ok(c) => resolve_context_spec(p, authored@, resources@, docs@, f) == Ok::<ContextView, ContextErrorView>(c@),
                Err(e) => resolve_context_spec(p, authored@, resources@, docs@, f) == Err::<ContextView, ContextErrorView>(e@),
            }
        }),
{
    let mut state = ImportState::new();
    assert(state@ == (ImportStateView { seen: Seq::<Seq<char>>::empty(), active: Seq::<Seq<char>>::empty() }));
    let base = match base_file {
        Some(file) => ContextBase::Local(file.to_owned()),
        None => ContextBase::Workspace,
    };
    let start = match parent {
        Some(c) => c.duplicate(),
        None => EffectiveContext::new(),
    };
    assert(start@ == match parent {
        Some(c) => c@,
        None => empty_context_view(),
    }) by {
        if parent is None {
            assert(start@.terms =~= empty_context_view().terms);
        }
    }
    resolve_value(start, authored, resources, docs, &base, &mut state, MAX_CONTEXT_IMPORT_DEPTH)
}

// ---------------------------------------------------------------------------
// Inlining a document's contexts
// ---------------------------------------------------------------------------

/// The value of member `k` of an object, if it is one and has that member.
pub open spec fn get_in(v: JsonView, k: Seq<char>) -> Option<JsonView> {
    match v {
        JsonView::Object(ms) => member_named(ms, k),
        _ => None,
    }
}

/// `v` with the first member named `k` holding `x`; `v` itself when it has no such member.
pub open spec fn set_member(v: JsonView, k: Seq<char>, x: JsonView) -> JsonView {
    match v {
        JsonView::Object(ms) => match first_member(ms, k) {
            Some(i) => JsonView::Object(ms.update(i, (k, x))),
            None => v,
        },
        _ => v,
    }
}

/// An authored context resolved and written back in its self-contained inline spelling,
/// with the scope it gives.
#[verifier::opaque]
pub open spec fn inlined_scope(
    parent: Option<ContextView>,
    authored: JsonView,
    res: ResourcesView,
    docs: Seq<(Seq<u8>, Option<JsonView>)>,
    src: Option<Seq<char>>,
) -> Result<(JsonView, ContextView), ContextErrorView> {
    match resolve_context_spec(parent, authored, res, docs, src) {
        Ok(c) => Ok((inline_context_json(c), c)),
        Err(e) => Err(e),
    }
}

/// Members whose contents are not nodes of the document tree.
pub open spec fn skipped_member(k: Seq<char>) -> bool {
    k == "$meta"@ || k == "@context"@ || k == "facts"@ || k == "@graph"@ || k == "assertionSources"@
        || k == "extensions"@
}

/// Members that carry a metadata scope of their own.
pub open spec fn scope_member(k: Seq<char>) -> bool {
    k == "attributes"@ || k == "annotations"@
}

/// Every `attributes` or `annotations` scope under `v` with its `@context` inlined over
/// `parent`, in document order; the first error stops the walk.
pub open spec fn inline_node_spec(
    v: JsonView,
    parent: ContextView,
    res: ResourcesView,
    docs: Seq<(Seq<u8>, Option<JsonView>)>,
    src: Option<Seq<char>>,
) -> Result<JsonView, ContextErrorView>
    decreases v, 1int,
{
    match v {
        JsonView::Object(ms) => match inline_members_spec(ms, parent, res, docs, src, ms.len() as int) {
            Ok(out) => Ok(JsonView::Object(out)),
            Err(e) => Err(e),
        },
        JsonView::Array(xs) => match inline_items_spec(xs, parent, res, docs, src, xs.len() as int) {
            Ok(out) => Ok(JsonView::Array(out)),
            Err(e) => Err(e),
        },
        _ => Ok(v),
    }
}

/// The inlined scope context of a member's value, if the member carries a scope with one.
pub open spec fn member_context(
    k: Seq<char>,
    child: JsonView,
    parent: ContextView,
    res: ResourcesView,
    docs: Seq<(Seq<u8>, Option<JsonView>)>,
    src: Option<Seq<char>>,
) -> Result<Option<JsonView>, ContextErrorView> {
    if scope_member(k) {
        match get_in(child, "@context"@) {
            Some(a) => match inlined_scope(Some(parent), a, res, docs, src) {
                Ok((j, _)) => Ok(Some(j)),
                Err(e) => Err(e),
            },
            None => Ok(None),
        }
    } else {
        Ok(None)
    }
}

pub open spec fn with_context(v: JsonView, rep: Option<JsonView>) -> JsonView {
    match rep {
        Some(j) => set_member(v, "@context"@, j),
        None => v,
    }
}

pub open spec fn inline_members_spec(
    ms: Seq<(Seq<char>, JsonView)>,
    parent: ContextView,
    res: ResourcesView,
    docs: Seq<(Seq<u8>, Option<JsonView>)>,
    src: Option<Seq<char>>,
    n: int,
) -> Result<Seq<(Seq<char>, JsonView)>, ContextErrorView>
    decreases ms, n,
{
    if n <= 0 || n > ms.len() {
        Ok(Seq::<(Seq<char>, JsonView)>::empty())
    } else {
        match inline_members_spec(ms, parent, res, docs, src, n - 1) {
            Err(e) => Err(e),
            Ok(prev) => {
                let k = ms[n - 1].0;
                let child = ms[n - 1].1;
                if skipped_member(k) {
                    Ok(prev.push((k, child)))
                } else {
                    match member_context(k, child, parent, res, docs, src) {
                        Err(e) => Err(e),
                        Ok(rep) => match inline_node_spec(child, parent, res, docs, src) {
                            Err(e) => Err(e),
                            Ok(c2) => Ok(prev.push((k, with_context(c2, rep)))),
                        },
                    }
                }
            },
        }
    }
}

pub open spec fn inline_items_spec(
    xs: Seq<JsonView>,
    parent: ContextView,
    res: ResourcesView,
    docs: Seq<(Seq<u8>, Option<JsonView>)>,
    src: Option<Seq<char>>,
    n: int,
) -> Result<Seq<JsonView>, ContextErrorView>
    decreases xs, n,
{
    if n <= 0 || n > xs.len() {
        Ok(Seq::<JsonView>::empty())
    } else {
        match inline_items_spec(xs, parent, res, docs, src, n - 1) {
            Err(e) => Err(e),
            Ok(prev) => match inline_node_spec(xs[n - 1], parent, res, docs, src) {
                Err(e) => Err(e),
                Ok(x) => Ok(prev.push(x)),
            },
        }
    }
}

/// The `@graph` nodes with each node's own `@context` inlined over `parent`.
pub open spec fn graph_nodes_spec(
    nodes: Seq<JsonView>,
    parent: ContextView,
    res: ResourcesView,
    docs: Seq<(Seq<u8>, Option<JsonView>)>,
    src: Option<Seq<char>>,
    n: int,
) -> Result<Seq<JsonView>, ContextErrorView>
    decreases n,
{
    if n <= 0 || n > nodes.len() {
        Ok(Seq::<JsonView>::empty())
    } else {
        match graph_nodes_spec(nodes, parent, res, docs, src, n - 1) {
            Err(e) => Err(e),
            Ok(prev) => {
                let node = nodes[n - 1];
                match get_in(node, "@context"@) {
                    None => Ok(prev.push(node)),
                    Some(a) => match inlined_scope(Some(parent), a, res, docs, src) {
                        Err(e) => Err(e),
                        Ok((j, _)) => Ok(prev.push(set_member(node, "@context"@, j))),
                    },
                }
            },
        }
    }
}

/// What inlining a document's contexts gives: the document's own `$meta.@context` resolved
/// first, over nothing, and the scope it gives is the parent of every other; then each
/// `$meta.@graph` node's `@context`; then every `attributes` and `annotations` scope in the
/// tree. Each authored context is replaced by its inline spelling; the first error stops.
pub open spec fn inline_document_spec(
    doc: JsonView,
    res: ResourcesView,
    docs: Seq<(Seq<u8>, Option<JsonView>)>,
    src: Option<Seq<char>>,
) -> Result<JsonView, ContextErrorView> {
    match meta_step(doc, res, docs, src) {
        Err(e) => Err(e),
        Ok((meta1, parent)) => match graph_step(meta1, parent, res, docs, src) {
            Err(e) => Err(e),
            Ok(meta2) => match inline_node_spec(doc, parent, res, docs, src) {
                Err(e) => Err(e),
                Ok(d3) => Ok(
                    match meta2 {
                        Some(m2) => set_member(d3, "$meta"@, m2),
                        None => d3,
                    },
                ),
            },
        },
    }
}

/// The document's `$meta` with its own `@context` inlined, and the scope that context gives
/// (the empty scope where there is none).
pub open spec fn meta_step(
    doc: JsonView,
    res: ResourcesView,
    docs: Seq<(Seq<u8>, Option<JsonView>)>,
    src: Option<Seq<char>>,
) -> Result<(Option<JsonView>, ContextView), ContextErrorView> {
    match get_in(doc, "$meta"@) {
        None => Ok((None, empty_context_view())),
        Some(m) => match get_in(m, "@context"@) {
            None => Ok((Some(m), empty_context_view())),
            Some(a) => match inlined_scope(None, a, res, docs, src) {
                Err(e) => Err(e),
                Ok((j, c)) => Ok((Some(set_member(m, "@context"@, j)), c)),
            },
        },
    }
}

/// `$meta` with each `@graph` node's `@context` inlined over `parent`.
pub open spec fn graph_step(
    meta1: Option<JsonView>,
    parent: ContextView,
    res: ResourcesView,
    docs: Seq<(Seq<u8>, Option<JsonView>)>,
    src: Option<Seq<char>>,
) -> Result<Option<JsonView>, ContextErrorView> {
    match meta1 {
        None => Ok(None),
        Some(m1) => match get_in(m1, "@graph"@) {
            Some(JsonView::Array(nodes)) => match graph_nodes_spec(nodes, parent, res, docs, src, nodes.len() as int) {
                Err(e) => Err(e),
                Ok(ns) => Ok(Some(set_member(m1, "@graph"@, JsonView::Array(ns)))),
            },
            _ => Ok(Some(m1)),
        },
    }
}

fn set_member_exec(v: JsonValue, k: &str, x: JsonValue) -> (r: JsonValue)
    ensures
        r@ == set_member(v@, k@, x@),
{
    match v {
        JsonValue::Object(ms) => {
            let mut ms = ms;
            proof {
                lemma_member_views(ms@);
                lemma_first_member(crate::json::member_views(ms@), k@);
            }
            match first_member_index(&ms, k) {
                Some(i) => {
                    let key = ms[i].0.clone();
                    proof {
                        lemma_member_views_update(ms@, i as int, (key, x));
                    }
                    ms.set(i, (key, x));
                    JsonValue::Object(ms)
                },
                None => JsonValue::Object(ms),
            }
        },
        other => other,
    }
}

fn get_in_exec<'a>(v: &'a JsonValue, k: &str) -> (r: Option<&'a JsonValue>)
    ensures
        match r {
            Some(x) => get_in(v@, k@) == Some(x@),
            None => get_in(v@, k@) is None,
        },
{
    match v {
        JsonValue::Object(ms) => get_member(ms, k),
        _ => None,
    }
}

fn inline_scope(
    parent: Option<&EffectiveContext>,
    authored: &JsonValue,
    resources: &ContextResources,
    docs: &ParsedResources,
    src: Option<&str>,
) -> (r: Result<(JsonValue, EffectiveContext), ContextError>)
    ensures
        ({
            let p = match parent {
                Some(c) => Some(c@),
                None => None,
            };
            let f = match src {
                Some(b) => Some(b@),
                None => None,
            };
            match r {
                Ok((j, c)) => inlined_scope(p, authored@, resources@, docs@, f) == Ok::<(JsonView, ContextView), ContextErrorView>((j@, c@)),
                Err(e) => inlined_scope(p, authored@, resources@, docs@, f) == Err::<(JsonView, ContextView), ContextErrorView>(e@),
            }
        }),
{
    proof {
        reveal(inlined_scope);
    }
    match resolve_context(parent, authored, resources, docs, src) {
        Ok(c) => {
            let j = c.to_inline_value();
            Ok((j, c))
        },
        Err(e) => Err(e),
    }
}

fn is_skipped_member(k: &str) -> (r: bool)
    ensures
        r == skipped_member(k@),
{
    str_eq(k, "$meta") || str_eq(k, "@context") || str_eq(k, "facts") || str_eq(k, "@graph") || str_eq(k, "assertionSources")
        || str_eq(k, "extensions")
}

fn is_scope_member(k: &str) -> (r: bool)
    ensures
        r == scope_member(k@),
{
    str_eq(k, "attributes") || str_eq(k, "annotations")
}

pub open spec fn src_view(src: Option<&str>) -> Option<Seq<char>> {
    match src {
        Some(b) => Some(b@),
        None => None,
    }
}

proof fn lemma_members_err(
    ms: Seq<(Seq<char>, JsonView)>,
    parent: ContextView,
    res: ResourcesView,
    docs: Seq<(Seq<u8>, Option<JsonView>)>,
    src: Option<Seq<char>>,
    n: int,
    n2: int,
)
    requires
        0 <= n <= n2 <= ms.len(),
        inline_members_spec(ms, parent, res, docs, src, n) is Err,
    ensures
        inline_members_spec(ms, parent, res, docs, src, n2) == inline_members_spec(ms, parent, res, docs, src, n),
    decreases n2 - n,
{
    if n2 > n {
        lemma_members_err(ms, parent, res, docs, src, n, n2 - 1);
    }
}

proof fn lemma_items_err(
    xs: Seq<JsonView>,
    parent: ContextView,
    res: ResourcesView,
    docs: Seq<(Seq<u8>, Option<JsonView>)>,
    src: Option<Seq<char>>,
    n: int,
    n2: int,
)
    requires
        0 <= n <= n2 <= xs.len(),
        inline_items_spec(xs, parent, res, docs, src, n) is Err,
    ensures
        inline_items_spec(xs, parent, res, docs, src, n2) == inline_items_spec(xs, parent, res, docs, src, n),
    decreases n2 - n,
{
    if n2 > n {
        lemma_items_err(xs, parent, res, docs, src, n, n2 - 1);
    }
}

proof fn lemma_nodes_err(
    xs: Seq<JsonView>,
    parent: ContextView,
    res: ResourcesView,
    docs: Seq<(Seq<u8>, Option<JsonView>)>,
    src: Option<Seq<char>>,
    n: int,
    n2: int,
)
    requires
        0 <= n <= n2 <= xs.len(),
        graph_nodes_spec(xs, parent, res, docs, src, n) is Err,
    ensures
        graph_nodes_spec(xs, parent, res, docs, src, n2) == graph_nodes_spec(xs, parent, res, docs, src, n),
    decreases n2 - n,
{
    if n2 > n {
        lemma_nodes_err(xs, parent, res, docs, src, n, n2 - 1);
    }
}

fn inline_node(
    v: &JsonValue,
    parent: &EffectiveContext,
    resources: &ContextResources,
    docs: &ParsedResources,
    src: Option<&str>,
) -> (r: Result<JsonValue, ContextError>)
    ensures
        match r {
            Ok(x) => inline_node_spec(v@, parent@, resources@, docs@, src_view(src)) == Ok::<JsonView, ContextErrorView>(x@),
            Err(e) => inline_node_spec(v@, parent@, resources@, docs@, src_view(src)) == Err::<JsonView, ContextErrorView>(e@),
        },
    decreases v,
{
    match v {
        JsonValue::Object(ms) => {
            proof {
                lemma_member_views(ms@);
            }
            let ghost mv = crate::json::member_views(ms@);
            let ghost sv = src_view(src);
            let mut out: Vec<(String, JsonValue)> = Vec::new();
            assert(crate::json::member_views(out@) =~= Seq::<(Seq<char>, JsonView)>::empty());
            let mut i: usize = 0;
            while i < ms.len()
                invariant
                    i <= ms@.len(),
                    mv == crate::json::member_views(ms@),
                    mv.len() == ms@.len(),
                    forall|q: int| 0 <= q < ms@.len() ==> #[trigger] mv[q] == (ms@[q].0@, ms@[q].1@),
                    v@ == JsonView::Object(mv),
                    *v == JsonValue::Object(*ms),
                    sv == src_view(src),
                    inline_members_spec(mv, parent@, resources@, docs@, sv, i as int) == Ok::<Seq<(Seq<char>, JsonView)>, ContextErrorView>(
                        crate::json::member_views(out@),
                    ),
                decreases ms.len() - i,
            {
                assert(mv[i as int] == (ms@[i as int].0@, ms@[i as int].1@));
                let k = &ms[i].0;
                let child = &ms[i].1;
                let ghost before = crate::json::member_views(out@);
                if is_skipped_member(k.as_str()) {
                    let kk = k.clone();
                    let cc = child.duplicate();
                    proof {
                        lemma_member_views_push(out@, kk, cc);
                    }
                    out.push((kk, cc));
                } else {
                    let rep: Option<JsonValue> = if is_scope_member(k.as_str()) {
                        match get_in_exec(child, "@context") {
                            Some(a) => match inline_scope(Some(parent), a, resources, docs, src) {
                                Ok((j, _)) => Some(j),
                                Err(e) => {
                                    proof {
                                        lemma_members_err(mv, parent@, resources@, docs@, sv, i as int + 1, mv.len() as int);
                                    }
                                    return Err(e);
                                },
                            },
                            None => None,
                        }
                    } else {
                        None
                    };
                    let ghost rv = doc_view(rep);
                    assert(member_context(k@, child@, parent@, resources@, docs@, sv) == Ok::<Option<JsonView>, ContextErrorView>(rv));
                    proof {
                        assert(v->Object_0 == *ms);
                        assert(decreases_to!(*v => (*v)->Object_0));
                        assert(decreases_to!(*ms => ms@));
                        assert(decreases_to!(ms@ => ms@[i as int]));
                        assert(decreases_to!(ms@[i as int] => ms@[i as int].1));
                    }
                    let c2 = match inline_node(child, parent, resources, docs, src) {
                        Ok(c) => c,
                        Err(e) => {
                            proof {
                                lemma_members_err(mv, parent@, resources@, docs@, sv, i as int + 1, mv.len() as int);
                            }
                            return Err(e);
                        },
                    };
                    let val = match rep {
                        Some(j) => set_member_exec(c2, "@context", j),
                        None => c2,
                    };
                    assert(val@ == with_context(inline_node_spec(child@, parent@, resources@, docs@, sv)->Ok_0, rv));
                    let kk = k.clone();
                    proof {
                        lemma_member_views_push(out@, kk, val);
                    }
                    out.push((kk, val));
                }
                i = i + 1;
            }
            Ok(JsonValue::Object(out))
        },
        JsonValue::Array(xs) => {
            proof {
                lemma_item_views(xs@);
            }
            let ghost iv = item_views(xs@);
            let ghost sv = src_view(src);
            let mut out: Vec<JsonValue> = Vec::new();
            assert(item_views(out@) =~= Seq::<JsonView>::empty());
            let mut i: usize = 0;
            while i < xs.len()
                invariant
                    i <= xs@.len(),
                    iv == item_views(xs@),
                    iv.len() == xs@.len(),
                    forall|q: int| 0 <= q < xs@.len() ==> #[trigger] iv[q] == xs@[q]@,
                    v@ == JsonView::Array(iv),
                    *v == JsonValue::Array(*xs),
                    sv == src_view(src),
                    inline_items_spec(iv, parent@, resources@, docs@, sv, i as int) == Ok::<Seq<JsonView>, ContextErrorView>(item_views(out@)),
                decreases xs.len() - i,
            {
                assert(iv[i as int] == xs@[i as int]@);
                proof {
                    assert(v->Array_0 == *xs);
                    assert(decreases_to!(*v => (*v)->Array_0));
                    assert(decreases_to!(*xs => xs@));
                    assert(decreases_to!(xs@ => xs@[i as int]));
                }
                let x = match inline_node(&xs[i], parent, resources, docs, src) {
                    Ok(x) => x,
                    Err(e) => {
                        proof {
                            lemma_items_err(iv, parent@, resources@, docs@, sv, i as int + 1, iv.len() as int);
                        }
                        return Err(e);
                    },
                };
                proof {
                    lemma_item_views_push(out@, x);
                }
                out.push(x);
                i = i + 1;
            }
            Ok(JsonValue::Array(out))
        },
        _ => Ok(v.duplicate()),
    }
}

fn graph_nodes(
    nodes: &Vec<JsonValue>,
    parent: &EffectiveContext,
    resources: &ContextResources,
    docs: &ParsedResources,
    src: Option<&str>,
) -> (r: Result<Vec<JsonValue>, ContextError>)
    ensures
        match r {
            Ok(xs) => graph_nodes_spec(item_views(nodes@), parent@, resources@, docs@, src_view(src), nodes@.len() as int)
                == Ok::<Seq<JsonView>, ContextErrorView>(item_views(xs@)),
            Err(e) => graph_nodes_spec(item_views(nodes@), parent@, resources@, docs@, src_view(src), nodes@.len() as int)
                == Err::<Seq<JsonView>, ContextErrorView>(e@),
        },
{
    proof {
        lemma_item_views(nodes@);
    }
    let ghost iv = item_views(nodes@);
    let ghost sv = src_view(src);
    let mut out: Vec<JsonValue> = Vec::new();
    assert(item_views(out@) =~= Seq::<JsonView>::empty());
    let mut i: usize = 0;
    while i < nodes.len()
        invariant
            i <= nodes@.len(),
            iv == item_views(nodes@),
            iv.len() == nodes@.len(),
            forall|q: int| 0 <= q < nodes@.len() ==> #[trigger] iv[q] == nodes@[q]@,
            sv == src_view(src),
            graph_nodes_spec(iv, parent@, resources@, docs@, sv, i as int) == Ok::<Seq<JsonView>, ContextErrorView>(item_views(out@)),
        decreases nodes.len() - i,
    {
        assert(iv[i as int] == nodes@[i as int]@);
        let node = &nodes[i];
        let x = match get_in_exec(node, "@context") {
            None => node.duplicate(),
            Some(a) => match inline_scope(Some(parent), a, resources, docs, src) {
                Ok((j, _)) => set_member_exec(node.duplicate(), "@context", j),
                Err(e) => {
                    proof {
                        lemma_nodes_err(iv, parent@, resources@, docs@, sv, i as int + 1, iv.len() as int);
                    }
                    return Err(e);
                },
            },
        };
        proof {
            lemma_item_views_push(out@, x);
        }
        out.push(x);
        i = i + 1;
    }
    Ok(out)
}

/// Replace a document's authored contexts with their self-contained inline spelling, using
/// only the resources supplied, with `docs` recording what their bytes parse to. The
/// document's own `$meta.@context` is the parent of every other scope.
pub fn inline_document_contexts(
    document: &JsonValue,
    resources: &ContextResources,
    docs: &ParsedResources,
    source_file: Option<&str>,
) -> (r: Result<JsonValue, ContextError>)
    ensures
        match r {
            Ok(x) => inline_document_spec(document@, resources@, docs@, src_view(source_file)) == Ok::<JsonView, ContextErrorView>(x@),
            Err(e) => inline_document_spec(document@, resources@, docs@, src_view(source_file)) == Err::<JsonView, ContextErrorView>(e@),
        },
{
    let empty = EffectiveContext::new();
    assert(empty@ == empty_context_view()) by {
        assert(empty@.terms =~= empty_context_view().terms);
    }
    let (meta1, parent): (Option<JsonValue>, EffectiveContext) = match get_in_exec(document, "$meta") {
        None => (None, empty),
        Some(m) => match get_in_exec(m, "@context") {
            None => (Some(m.duplicate()), empty),
            Some(a) => match inline_scope(None, a, resources, docs, source_file) {
                Err(e) => {
                    return Err(e);
                },
                Ok((j, c)) => (Some(set_member_exec(m.duplicate(), "@context", j)), c),
            },
        },
    };
    assert(meta_step(document@, resources@, docs@, src_view(source_file)) == Ok::<(Option<JsonView>, ContextView), ContextErrorView>(
        (doc_view(meta1), parent@),
    ));
    let meta2: Option<JsonValue> = match meta1 {
        None => None,
        Some(m1) => {
            let found: Option<Vec<JsonValue>> = match get_in_exec(&m1, "@graph") {
                Some(JsonValue::Array(nodes)) => {
                    assert(get_in(m1@, "@graph"@) == Some(JsonView::Array(item_views(nodes@))));
                    proof {
                        lemma_item_views(nodes@);
                    }
                    match graph_nodes(nodes, &parent, resources, docs, source_file) {
                        Ok(ns) => {
                            assert(graph_step(Some(m1@), parent@, resources@, docs@, src_view(source_file)) == Ok::<
                                Option<JsonView>,
                                ContextErrorView,
                            >(Some(set_member(m1@, "@graph"@, JsonView::Array(item_views(ns@))))));
                            Some(ns)
                        },
                        Err(e) => {
                            assert(graph_step(Some(m1@), parent@, resources@, docs@, src_view(source_file)) == Err::<
                                Option<JsonView>,
                                ContextErrorView,
                            >(e@));
                            return Err(e);
                        },
                    }
                },
                _ => {
                    assert(graph_step(Some(m1@), parent@, resources@, docs@, src_view(source_file)) == Ok::<
                        Option<JsonView>,
                        ContextErrorView,
                    >(Some(m1@)));
                    None
                },
            };
            match found {
                Some(ns) => Some(set_member_exec(m1, "@graph", JsonValue::Array(ns))),
                None => Some(m1),
            }
        },
    };
    assert(graph_step(doc_view(meta1), parent@, resources@, docs@, src_view(source_file)) == Ok::<Option<JsonView>, ContextErrorView>(
        doc_view(meta2),
    ));
    let d3 = match inline_node(document, &parent, resources, docs, source_file) {
        Ok(d) => d,
        Err(e) => {
            return Err(e);
        },
    };
    match meta2 {
        Some(m2) => Ok(set_member_exec(d3, "$meta", m2)),
        None => Ok(d3),
    }
}

} // verus!
