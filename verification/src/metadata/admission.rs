//! Predicate declarations supplied by the caller, and the closure that indexes them.
//!
//! A declaration says which root its predicate address has, what object it expects and
//! which subjects it allows; the closure refuses a declaration that breaks those rules and
//! a predicate declared twice.

use crate::ir::v4::types::Type;
use crate::json::{json_quote, json_string_literal};
use crate::naming::fqname::FQName;
use crate::node_address::{
    lowercase_words, lowercase_words_in, uri_spelling, NodeRoot, NodeUri, RootView, UriView,
};
use crate::text::{chars_of, is_alnum, is_lower, is_upper, push_chars, push_str_chars, str_eq, string_of};
use vstd::prelude::*;

verus! {

/// Semantic role of an addressed subject in its supplying IR artifact.
#[derive(Debug, Clone, Copy, PartialEq, Eq, PartialOrd, Ord, Structural)]
pub enum SubjectRole {
    TypeSpecification,
    TypeDefinition,
    ValueSpecification,
    ValueDefinition,
    TypeExpression,
    ValueExpression,
    Pattern,
    Module,
    Package,
}

/// The declared datatype of a `@json` object: a legacy entry point, or a v4 type.
#[derive(Debug)]
pub enum DeclaredDataType {
    V3(FQName),
    V4(Box<Type>),
}

/// The resolved target's broad IR node kind.
#[derive(Debug, Clone, Copy, PartialEq, Eq, Structural)]
pub enum NodeTargetKind {
    Type,
    Value,
    Module,
    Package,
}

/// The declaration's representation of one expanded object.
#[derive(Debug)]
pub enum ObjectDeclaration {
    Data(Type),
    Json { datatype: NodeUri, ty: DeclaredDataType },
    Node(NodeTargetKind),
}

impl ObjectDeclaration {
    pub fn data(ty: Type) -> (r: ObjectDeclaration)
        ensures
            r == ObjectDeclaration::Data(ty),
    {
        ObjectDeclaration::Data(ty)
    }

    /// One structured `@json` object checked against a v4 type.
    pub fn json(datatype: NodeUri, ty: Type) -> (r: ObjectDeclaration)
        ensures
            r == (ObjectDeclaration::Json { datatype, ty: DeclaredDataType::V4(Box::new(ty)) }),
    {
        ObjectDeclaration::Json { datatype, ty: DeclaredDataType::V4(Box::new(ty)) }
    }

    /// A legacy sidecar entry point's closed type, projected as `@json`.
    pub fn sidecar_json(datatype: NodeUri, entry_point: FQName) -> (r: ObjectDeclaration)
        ensures
            r == (ObjectDeclaration::Json { datatype, ty: DeclaredDataType::V3(entry_point) }),
    {
        ObjectDeclaration::Json { datatype, ty: DeclaredDataType::V3(entry_point) }
    }

    pub fn node(target: NodeTargetKind) -> (r: ObjectDeclaration)
        ensures
            r == ObjectDeclaration::Node(target),
    {
        ObjectDeclaration::Node(target)
    }
}

/// A semantic interpreter supported by this bounded admission layer.
#[derive(Debug, Clone, Copy, PartialEq, Eq, Structural)]
pub enum Interpreter {
    TargetNameLanguageIds,
}

/// A predicate's semantic interpretation after its type has been checked.
#[derive(Debug, Clone, Copy, PartialEq, Eq, Structural)]
pub enum Interpretation {
    Descriptive,
    Required(Interpreter),
}

/// Which kind of declaration a predicate comes from.
#[derive(Debug, Clone, Copy, PartialEq, Eq, Structural)]
pub enum DeclarationRole {
    ValueSpecification,
    SidecarTypeSpecification,
}

/// One predicate supplied by an external declaration closure.
#[derive(Debug)]
pub struct PredicateDeclaration {
    uri: NodeUri,
    role: DeclarationRole,
    object: ObjectDeclaration,
    subjects: Vec<SubjectRole>,
    interpretation: Interpretation,
}

impl PredicateDeclaration {
    pub closed spec fn uri_view(&self) -> UriView {
        self.uri@
    }

    pub closed spec fn role_of(&self) -> DeclarationRole {
        self.role
    }

    pub closed spec fn object_of(&self) -> ObjectDeclaration {
        self.object
    }

    /// The subject roles the predicate allows.
    pub closed spec fn subject_set(&self) -> Set<SubjectRole> {
        self.subjects@.to_set()
    }

    pub closed spec fn interpretation_of(&self) -> Interpretation {
        self.interpretation
    }

    /// A predicate declared by a value specification.
    pub fn value(
        uri: NodeUri,
        object: ObjectDeclaration,
        subjects: Vec<SubjectRole>,
        interpretation: Interpretation,
    ) -> (r: PredicateDeclaration)
        ensures
            r.uri_view() == uri@,
            r.role_of() == DeclarationRole::ValueSpecification,
            r.object_of() == object,
            r.subject_set() == subjects@.to_set(),
            r.interpretation_of() == interpretation,
    {
        PredicateDeclaration {
            uri,
            role: DeclarationRole::ValueSpecification,
            object,
            subjects,
            interpretation,
        }
    }

    /// A legacy decorator type specification, admitted only through its sidecar.
    pub fn sidecar_type(uri: NodeUri, object: ObjectDeclaration, subjects: Vec<SubjectRole>) -> (r:
        PredicateDeclaration)
        ensures
            r.uri_view() == uri@,
            r.role_of() == DeclarationRole::SidecarTypeSpecification,
            r.object_of() == object,
            r.subject_set() == subjects@.to_set(),
            r.interpretation_of() == Interpretation::Descriptive,
    {
        PredicateDeclaration {
            uri,
            role: DeclarationRole::SidecarTypeSpecification,
            object,
            subjects,
            interpretation: Interpretation::Descriptive,
        }
    }

    /// The declared datatype needed by `@json` context expansion.
    pub fn json_datatype(&self) -> (r: Option<&NodeUri>)
        ensures
            match self.object_of() {
                ObjectDeclaration::Json { datatype, .. } => r matches Some(d) && d@ == datatype@,
                _ => r is None,
            },
    {
        match &self.object {
            ObjectDeclaration::Json { datatype, .. } => Some(datatype),
            _ => None,
        }
    }
}

/// A fact's semantic validation state.
#[derive(Debug, Clone, Copy, PartialEq, Eq, Structural)]
pub enum Admission {
    Validated,
    PreservedUnvalidated(UnvalidatedReason),
}

/// Why an expanded fact remains available for roundtrip but lacks validated meaning.
#[derive(Debug, Clone, Copy, PartialEq, Eq, Structural)]
pub enum UnvalidatedReason {
    PredicateDeclaration,
    Target,
    RequiredInterpreter(Interpreter),
}

/// A declaration or expanded fact violates the supplied closure.
#[derive(Debug, Clone, PartialEq, Eq)]
pub enum AdmissionError {
    InvalidDeclarationRole,
    DuplicatePredicate,
    InvalidDatatypeDeclaration,
    EmptySubjectRoles,
    CarrierSubjectMismatch,
    DeclarationCarrierMismatch,
    SubjectRoleMismatch,
    ObjectKindMismatch,
    DatatypeMismatch,
    NodeTargetKindMismatch,
    InvalidLanguageId { path: String },
    InterpreterInputMismatch,
}

/// The message an admission error carries.
pub open spec fn admission_error_message(e: AdmissionError) -> Seq<char> {
    match e {
        AdmissionError::InvalidDeclarationRole =>
            "predicate URI root does not match its declaration role"@,
        AdmissionError::DuplicatePredicate => "predicate closure contains a duplicate declaration"@,
        AdmissionError::InvalidDatatypeDeclaration => "@json datatype must name a type declaration"@,
        AdmissionError::EmptySubjectRoles =>
            "predicate declaration must allow at least one subject role"@,
        AdmissionError::CarrierSubjectMismatch =>
            "node-local carrier does not match the fact subject"@,
        AdmissionError::DeclarationCarrierMismatch =>
            "type-specification predicate requires its matching sidecar carrier"@,
        AdmissionError::SubjectRoleMismatch =>
            "fact subject role is not allowed by predicate declaration"@,
        AdmissionError::ObjectKindMismatch =>
            "predicate object does not match its declared object kind"@,
        AdmissionError::DatatypeMismatch =>
            "typed JSON datatype does not match its predicate declaration"@,
        AdmissionError::NodeTargetKindMismatch =>
            "node reference target kind does not match its predicate declaration"@,
        AdmissionError::InvalidLanguageId { path } => "invalid language ID at "@ + path@,
        AdmissionError::InterpreterInputMismatch =>
            "semantic interpreter received a value with the wrong structure"@,
    }
}

impl AdmissionError {
    /// The error's message.
    pub fn message(&self) -> (r: String)
        ensures
            r@ == admission_error_message(*self),
    {
        match self {
            AdmissionError::InvalidDeclarationRole => String::from_str(
                "predicate URI root does not match its declaration role",
            ),
            AdmissionError::DuplicatePredicate => String::from_str(
                "predicate closure contains a duplicate declaration",
            ),
            AdmissionError::InvalidDatatypeDeclaration => String::from_str(
                "@json datatype must name a type declaration",
            ),
            AdmissionError::EmptySubjectRoles => String::from_str(
                "predicate declaration must allow at least one subject role",
            ),
            AdmissionError::CarrierSubjectMismatch => String::from_str(
                "node-local carrier does not match the fact subject",
            ),
            AdmissionError::DeclarationCarrierMismatch => String::from_str(
                "type-specification predicate requires its matching sidecar carrier",
            ),
            AdmissionError::SubjectRoleMismatch => String::from_str(
                "fact subject role is not allowed by predicate declaration",
            ),
            AdmissionError::ObjectKindMismatch => String::from_str(
                "predicate object does not match its declared object kind",
            ),
            AdmissionError::DatatypeMismatch => String::from_str(
                "typed JSON datatype does not match its predicate declaration",
            ),
            AdmissionError::NodeTargetKindMismatch => String::from_str(
                "node reference target kind does not match its predicate declaration",
            ),
            AdmissionError::InvalidLanguageId { path } => {
                let mut s = String::from_str("invalid language ID at ");
                s.append(path.as_str());
                s
            },
            AdmissionError::InterpreterInputMismatch => String::from_str(
                "semantic interpreter received a value with the wrong structure",
            ),
        }
    }
}

/// Whether a node address is a declaration root with no steps of the given shape.
pub open spec fn bare_type_root(u: UriView) -> bool {
    u.root is Type && u.steps.len() == 0
}

/// The first rule a declaration breaks, if any: its address must be a bare value root for
/// a value specification, or a bare type root with a `@json` object for a sidecar; a
/// `@json` datatype must be a bare type root; and it must allow some subject.
pub open spec fn declaration_error(d: PredicateDeclaration) -> Option<AdmissionError> {
    let expected_root = match d.role_of() {
        DeclarationRole::ValueSpecification => d.uri_view().root is Value,
        DeclarationRole::SidecarTypeSpecification => d.uri_view().root is Type && d.object_of() is Json,
    };
    if !expected_root || d.uri_view().steps.len() != 0 {
        Some(AdmissionError::InvalidDeclarationRole)
    } else if d.object_of() matches ObjectDeclaration::Json { datatype, .. } && !bare_type_root(
        datatype@,
    ) {
        Some(AdmissionError::InvalidDatatypeDeclaration)
    } else if d.subject_set().is_empty() {
        Some(AdmissionError::EmptySubjectRoles)
    } else {
        None
    }
}

/// The key a declaration is indexed under: its address's spelling.
#[verifier::opaque]
pub open spec fn declaration_key(d: PredicateDeclaration) -> Seq<char> {
    uri_spelling(d.uri_view())
}

/// Whether two of the declarations before `i` share a key with declaration `i`.
pub open spec fn key_seen_before(ds: Seq<PredicateDeclaration>, i: int) -> bool {
    exists|j: int| 0 <= j < i && declaration_key(#[trigger] ds[j]) == declaration_key(ds[i])
}

/// The first refusal among the declarations from `i` on.
pub open spec fn closure_error_from(ds: Seq<PredicateDeclaration>, i: int) -> Option<AdmissionError>
    decreases ds.len() - i,
{
    if i < 0 || i >= ds.len() {
        None
    } else {
        match declaration_error(ds[i]) {
            Some(e) => Some(e),
            None => if key_seen_before(ds, i) {
                Some(AdmissionError::DuplicatePredicate)
            } else {
                closure_error_from(ds, i + 1)
            },
        }
    }
}

/// Predicate declarations bound to the caller's provider set, indexed by address.
#[derive(Debug)]
pub struct PredicateClosure {
    declarations: Vec<(String, PredicateDeclaration)>,
}

impl PredicateClosure {
    /// The declarations, in the order they were supplied.
    pub closed spec fn entries(&self) -> Seq<PredicateDeclaration> {
        self.declarations@.map_values(|e: (String, PredicateDeclaration)| e.1)
    }

    pub closed spec fn well_indexed(&self) -> bool {
        &&& forall|k: int|
            0 <= k < self.declarations@.len() ==> (#[trigger] self.declarations@[k]).0@
                == declaration_key(self.declarations@[k].1)
        &&& forall|j: int, k: int|
            0 <= j < k < self.declarations@.len() ==> declaration_key(
                #[trigger] self.declarations@[j].1,
            ) != declaration_key(#[trigger] self.declarations@[k].1)
    }

    /// Index the declarations, refusing the first that breaks a rule or repeats a predicate.
    pub fn new(declarations: Vec<PredicateDeclaration>) -> (r: Result<
        PredicateClosure,
        AdmissionError,
    >)
        ensures
            match r {
                Ok(c) => closure_error_from(declarations@, 0) is None && c.entries()
                    == declarations@ && c.well_indexed(),
                Err(e) => closure_error_from(declarations@, 0) == Some(e),
            },
    {
        let ghost all = declarations@;
        assert(all.len() == declarations.len());
        let mut rest = declarations;
        let mut indexed: Vec<(String, PredicateDeclaration)> = Vec::new();
        let mut i: usize = 0;
        assert(rest@ =~= all.skip(0));
        while rest.len() > 0
            invariant
                all == declarations@,
                all.len() <= usize::MAX,
                i + rest@.len() == all.len(),
                rest@ == all.skip(i as int),
                indexed@.len() == i,
                forall|k: int| 0 <= k < i ==> (#[trigger] indexed@[k]).1 == all[k],
                forall|k: int|
                    0 <= k < i ==> (#[trigger] indexed@[k]).0@ == declaration_key(all[k]),
                forall|j: int, k: int|
                    0 <= j < k < i ==> declaration_key(#[trigger] all[j]) != declaration_key(
                        #[trigger] all[k],
                    ),
                closure_error_from(all, 0) == closure_error_from(all, i as int),
            decreases rest.len(),
        {
            let d = rest.remove(0);
            assert(d == all[i as int]);
            let expected_root = match d.role {
                DeclarationRole::ValueSpecification => match d.uri.root() {
                    NodeRoot::Value { .. } => true,
                    _ => false,
                },
                DeclarationRole::SidecarTypeSpecification => {
                    let type_root = match d.uri.root() {
                        NodeRoot::Type { .. } => true,
                        _ => false,
                    };
                    let json = match &d.object {
                        ObjectDeclaration::Json { .. } => true,
                        _ => false,
                    };
                    type_root && json
                },
            };
            let steps_len = d.uri.steps().len();
            assert(steps_len == d.uri_view().steps.len());
            if !expected_root || steps_len != 0 {
                assert(declaration_error(all[i as int]) == Some(
                    AdmissionError::InvalidDeclarationRole,
                ));
                return Err(AdmissionError::InvalidDeclarationRole);
            }
            match &d.object {
                ObjectDeclaration::Json { datatype, .. } => {
                    let type_root = match datatype.root() {
                        NodeRoot::Type { .. } => true,
                        _ => false,
                    };
                    let dt_steps = datatype.steps().len();
                    assert(dt_steps == datatype@.steps.len());
                    if !type_root || dt_steps != 0 {
                        assert(declaration_error(all[i as int]) == Some(
                            AdmissionError::InvalidDatatypeDeclaration,
                        ));
                        return Err(AdmissionError::InvalidDatatypeDeclaration);
                    }
                },
                _ => {},
            }
            if d.subjects.len() == 0 {
                assert(d.subject_set() =~= Set::<SubjectRole>::empty());
                return Err(AdmissionError::EmptySubjectRoles);
            }
            assert(d.subjects@.contains(d.subjects@[0]));
            assert(d.subject_set().contains(d.subjects@[0]));
            let key = d.uri.to_string();
            proof {
                reveal(declaration_key);
            }
            assert(key@ == declaration_key(all[i as int]));
            assert(declaration_error(all[i as int]) is None);
            let mut j: usize = 0;
            while j < indexed.len()
                invariant
                    j <= indexed.len(),
                    all == declarations@,
                    declaration_error(all[i as int]) is None,
                    closure_error_from(all, 0) == closure_error_from(all, i as int),
                    indexed@.len() == i,
                    i < all.len(),
                    key@ == declaration_key(all[i as int]),
                    forall|k: int|
                        0 <= k < i ==> (#[trigger] indexed@[k]).0@ == declaration_key(all[k]),
                    forall|k: int|
                        0 <= k < j ==> declaration_key(#[trigger] all[k]) != declaration_key(
                            all[i as int],
                        ),
                decreases indexed.len() - j,
            {
                if str_eq(indexed[j].0.as_str(), key.as_str()) {
                    assert(key_seen_before(all, i as int));
                    return Err(AdmissionError::DuplicatePredicate);
                }
                j = j + 1;
            }
            assert(!key_seen_before(all, i as int));
            assert(declaration_error(all[i as int]) is None);
            indexed.push((key, d));
            assert(rest@ =~= all.skip(i as int + 1));
            i = i + 1;
        }
        let c = PredicateClosure { declarations: indexed };
        assert(c.entries() =~= all);
        assert(closure_error_from(all, i as int) is None);
        Ok(c)
    }

    /// The typed JSON datatype declared for `predicate`, for context expansion.
    pub fn json_datatype(&self, predicate: &NodeUri) -> (r: Option<NodeUri>)
        requires
            self.well_indexed(),
        ensures
            match r {
                Some(u) => exists|k: int|
                    {
                        &&& 0 <= k < self.entries().len()
                        &&& declaration_key(#[trigger] self.entries()[k]) == uri_spelling(
                            predicate@,
                        )
                        &&& (self.entries()[k].object_of() matches ObjectDeclaration::Json {
                            datatype,
                            ..
                        } && u@ == datatype@)
                    },
                None => forall|k: int|
                    0 <= k < self.entries().len() && declaration_key(#[trigger] self.entries()[k])
                        == uri_spelling(predicate@) ==> !(self.entries()[k].object_of() is Json),
            },
    {
        let key = predicate.to_string();
        proof {
            reveal(declaration_key);
        }
        let mut i: usize = 0;
        while i < self.declarations.len()
            invariant
                i <= self.declarations.len(),
                self.well_indexed(),
                key@ == uri_spelling(predicate@),
                forall|k: int|
                    0 <= k < i ==> declaration_key(#[trigger] self.entries()[k]) != key@,
            decreases self.declarations.len() - i,
        {
            let entry = &self.declarations[i];
            assert(self.entries()[i as int] == entry.1);
            if str_eq(entry.0.as_str(), key.as_str()) {
                return match entry.1.json_datatype() {
                    Some(d) => Some(d.duplicate()),
                    None => {
                        proof {
                            assert forall|k: int|
                                0 <= k < self.entries().len() && declaration_key(
                                    #[trigger] self.entries()[k],
                                ) == uri_spelling(predicate@) implies !(
                            self.entries()[k].object_of() is Json) by {
                                if k != i {
                                    if k < i {
                                    } else {
                                        assert(declaration_key(self.declarations@[i as int].1)
                                            != declaration_key(self.declarations@[k].1));
                                    }
                                }
                            }
                        }
                        None
                    },
                };
            }
            i = i + 1;
        }
        None
    }
}

/// Whether a target root is of the node kind a declaration expects.
pub open spec fn root_matches(expected: NodeTargetKind, root: RootView) -> bool {
    match expected {
        NodeTargetKind::Type => root is Type,
        NodeTargetKind::Value => root is Value,
        NodeTargetKind::Module => root is Module,
        NodeTargetKind::Package => root is Package,
    }
}

pub fn target_root_matches(expected: NodeTargetKind, root: &NodeRoot) -> (r: bool)
    ensures
        r == root_matches(expected, root@),
{
    match (expected, root) {
        (NodeTargetKind::Type, NodeRoot::Type { .. }) => true,
        (NodeTargetKind::Value, NodeRoot::Value { .. }) => true,
        (NodeTargetKind::Module, NodeRoot::Module { .. }) => true,
        (NodeTargetKind::Package, NodeRoot::Package) => true,
        _ => false,
    }
}

/// Whether `value` is a language id: lowercase words and digits joined by single hyphens,
/// starting with a letter.
pub fn valid_language_id(value: &str) -> (r: bool)
    ensures
        r == lowercase_words(value@),
{
    let cs = chars_of(value);
    lowercase_words_in(cs.as_slice())
}

/// A character a dotted member path may hold.
pub open spec fn path_word_char(c: char) -> bool {
    is_alnum(c) || c == '_'
}

/// The JSON path step that selects `member` of an object: `.member` for an identifier-like
/// member, otherwise the member's JSON string literal in brackets.
pub open spec fn json_member_path_of(member: Seq<char>) -> Seq<char> {
    if member.len() > 0 && (is_upper(member[0]) || is_lower(member[0]) || member[0] == '_') && (
    forall|i: int| 0 <= i < member.len() ==> path_word_char(#[trigger] member[i])) {
        seq!['.'] + member
    } else {
        seq!['['] + json_string_literal(member) + seq![']']
    }
}

/// The JSON path step that selects `member` of an object.
pub fn json_member_path(member: &str) -> (r: String)
    ensures
        r@ == json_member_path_of(member@),
{
    let cs = chars_of(member);
    let mut plain = cs.len() > 0 && (('a' <= cs[0] && cs[0] <= 'z') || ('A' <= cs[0] && cs[0]
        <= 'Z') || cs[0] == '_');
    let mut i: usize = 0;
    while i < cs.len()
        invariant
            i <= cs.len(),
            cs@ == member@,
            plain == (cs@.len() > 0 && (is_upper(cs@[0]) || is_lower(cs@[0]) || cs@[0] == '_') && (
            forall|j: int| 0 <= j < i ==> path_word_char(#[trigger] cs@[j]))),
        decreases cs.len() - i,
    {
        let c = cs[i];
        let word = ('a' <= c && c <= 'z') || ('A' <= c && c <= 'Z') || ('0' <= c && c <= '9')
            || c == '_';
        if !word {
            plain = false;
        }
        i = i + 1;
    }
    let mut out: Vec<char> = Vec::new();
    if plain {
        out.push('.');
        push_chars(&mut out, cs.as_slice());
    } else {
        out.push('[');
        let quoted = json_quote(member);
        push_str_chars(&mut out, quoted.as_str());
        out.push(']');
    }
    assert(out@ =~= json_member_path_of(member@));
    string_of(out.as_slice())
}

/// The first language id among `keys` that is not valid, if any.
pub open spec fn first_invalid_language(keys: Seq<String>) -> Option<Seq<char>>
    decreases keys.len(),
{
    if keys.len() == 0 {
        None
    } else if !lowercase_words(keys[0]@) {
        Some(keys[0]@)
    } else {
        first_invalid_language(keys.drop_first())
    }
}

/// What the target-name language-id interpreter says of the language maps under
/// `frontend` and `backend` (`None` where the record has no object there): each map must
/// be there, or the input does not fit the interpreter (`Err(None)`); and every language it
/// lists must be a language id, or the first that is not is refused at its JSON path
/// (`Err(Some(path))`).
pub open spec fn language_ids_verdict(frontend: Option<Seq<String>>, backend: Option<Seq<String>>) -> Result<(), Option<Seq<char>>> {
    match frontend {
        None => Err(None),
        Some(f) => match first_invalid_language(f) {
            Some(bad) => Err(Some("$.frontend"@ + json_member_path_of(bad))),
            None => match backend {
                None => Err(None),
                Some(b) => match first_invalid_language(b) {
                    Some(bad) => Err(Some("$.backend"@ + json_member_path_of(bad))),
                    None => Ok(()),
                },
            },
        },
    }
}

fn first_invalid_language_in(keys: &Vec<String>) -> (r: Option<&String>)
    ensures
        match r {
            Some(k) => first_invalid_language(keys@) == Some(k@),
            None => first_invalid_language(keys@) is None,
        },
{
    let mut i: usize = 0;
    assert(keys@.skip(0) =~= keys@);
    while i < keys.len()
        invariant
            i <= keys.len(),
            first_invalid_language(keys@) == first_invalid_language(keys@.skip(i as int)),
        decreases keys.len() - i,
    {
        assert(keys@.skip(i as int).drop_first() =~= keys@.skip(i as int + 1));
        assert(keys@.skip(i as int)[0] == keys@[i as int]);
        if !valid_language_id(keys[i].as_str()) {
            return Some(&keys[i]);
        }
        i = i + 1;
    }
    None
}

fn language_path(field: &str, member: &str) -> (r: String)
    ensures
        r@ == field@ + json_member_path_of(member@),
{
    let step = json_member_path(member);
    let mut out: Vec<char> = Vec::new();
    push_str_chars(&mut out, field);
    push_str_chars(&mut out, step.as_str());
    string_of(out.as_slice())
}

/// Checks the input of the target-name language-id interpreter: the language names listed
/// under the record's `frontend` and `backend` objects (`None` where the record has no
/// object there).
pub fn validate_target_name_language_ids(frontend: Option<&Vec<String>>, backend: Option<&Vec<String>>) -> (r: Result<(), AdmissionError>)
    ensures
        ({
            let verdict = language_ids_verdict(
                match frontend {
                    Some(f) => Some(f@),
                    None => None,
                },
                match backend {
                    Some(b) => Some(b@),
                    None => None,
                },
            );
            match r {
                Ok(_) => verdict == Ok::<(), Option<Seq<char>>>(()),
                Err(AdmissionError::InterpreterInputMismatch) => verdict == Err::<(), Option<Seq<char>>>(None),
                Err(AdmissionError::InvalidLanguageId { path }) => verdict == Err::<(), Option<Seq<char>>>(Some(path@)),
                Err(_) => false,
            }
        }),
{
    let f = match frontend {
        Some(f) => f,
        None => {
            return Err(AdmissionError::InterpreterInputMismatch);
        },
    };
    match first_invalid_language_in(f) {
        Some(bad) => {
            return Err(AdmissionError::InvalidLanguageId { path: language_path("$.frontend", bad.as_str()) });
        },
        None => {},
    }
    let b = match backend {
        Some(b) => b,
        None => {
            return Err(AdmissionError::InterpreterInputMismatch);
        },
    };
    match first_invalid_language_in(b) {
        Some(bad) => Err(AdmissionError::InvalidLanguageId { path: language_path("$.backend", bad.as_str()) }),
        None => Ok(()),
    }
}

} // verus!
