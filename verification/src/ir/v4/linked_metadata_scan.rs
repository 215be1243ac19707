//! Detecting linked metadata in concrete v4 fragments.

use crate::ir::v4::access::AccessControlled;
use crate::ir::v4::attributes::scope_is_empty;
use crate::ir::v4::serde_v4::attributes_of;
use crate::ir::v4::types::{
    ConstructorArg, ConstructorArgSpec, ConstructorDefinition, ConstructorSpecification, Field, Type,
    TypeDefinition, TypeSpecification,
};
use vstd::prelude::*;

verus! {

/// A fragment that may own a linked-metadata carrier.
pub trait LinkedMetadataCarrier {
    /// Whether some node of the fragment carries a metadata scope.
    spec fn has_linked_metadata(&self) -> bool;

    /// Whether some node of the fragment carries a metadata scope.
    fn contains_linked_metadata(&self) -> (r: bool)
        ensures
            r == self.has_linked_metadata(),
    ;
}

/// Whether a type expression, or a type nested in it, carries a metadata scope.
pub open spec fn type_has_metadata(t: Type) -> bool
    decreases t, 1int,
{
    !scope_is_empty(attributes_of(t).metadata) || match t {
        Type::Reference(_, _, args) => types_have_metadata(args@),
        Type::Tuple(_, els) => types_have_metadata(els@),
        Type::Record(_, fs) => fields_have_metadata(fs@),
        Type::ExtensibleRecord(_, _, fs) => fields_have_metadata(fs@),
        Type::Function(_, p, r) => type_has_metadata(*p) || type_has_metadata(*r),
        _ => false,
    }
}

/// Whether one of the types carries a metadata scope.
pub open spec fn types_have_metadata(s: Seq<Type>) -> bool
    decreases s, 0int,
{
    s.len() > 0 && (types_have_metadata(s.drop_last()) || type_has_metadata(s.last()))
}

/// Whether the type of one of the fields carries a metadata scope.
pub open spec fn fields_have_metadata(fs: Seq<Field>) -> bool
    decreases fs, 0int,
{
    fs.len() > 0 && (fields_have_metadata(fs.drop_last()) || type_has_metadata(fs.last().tpe))
}

/// Whether the type of an argument of one of the constructors carries a metadata scope.
pub open spec fn constructor_specs_have_metadata(cs: Seq<ConstructorSpecification>) -> bool {
    exists|i: int, j: int|
        0 <= i < cs.len() && 0 <= j < cs[i].args@.len() && #[trigger] type_has_metadata(
            cs[i].args@[j].arg_type,
        )
}

/// Whether the type of an argument of one of the constructors carries a metadata scope.
pub open spec fn constructor_defs_have_metadata(cs: Seq<ConstructorDefinition>) -> bool {
    exists|i: int, j: int|
        0 <= i < cs.len() && 0 <= j < cs[i].args@.len() && #[trigger] type_has_metadata(
            cs[i].args@[j].arg_type,
        )
}

fn types_contain_metadata(ts: &Vec<Type>) -> (r: bool)
    ensures
        r == types_have_metadata(ts@),
    decreases ts, 0int,
{
    let mut i: usize = 0;
    assert(ts@.take(0) =~= Seq::<Type>::empty());
    while i < ts.len()
        invariant
            i <= ts@.len(),
            !types_have_metadata(ts@.take(i as int)),
        decreases ts.len() - i,
    {
        proof {
            assert(decreases_to!(*ts => ts@));
            assert(decreases_to!(ts@ => ts@[i as int]));
            assert(ts@.take(i as int + 1).drop_last() =~= ts@.take(i as int));
        }
        if type_contains_metadata(&ts[i]) {
            proof {
                lemma_types_prefix(ts@, i as int + 1);
            }
            return true;
        }
        i = i + 1;
    }
    assert(ts@.take(i as int) =~= ts@);
    false
}

/// A prefix of types that carries metadata is part of a list that does.
proof fn lemma_types_prefix(s: Seq<Type>, n: int)
    requires
        0 <= n <= s.len(),
        types_have_metadata(s.take(n)),
    ensures
        types_have_metadata(s),
    decreases s.len() - n,
{
    if n < s.len() {
        assert(s.take(n + 1).drop_last() =~= s.take(n));
        lemma_types_prefix(s, n + 1);
    } else {
        assert(s.take(n) =~= s);
    }
}

/// A prefix of fields that carries metadata is part of a list that does.
proof fn lemma_fields_prefix(s: Seq<Field>, n: int)
    requires
        0 <= n <= s.len(),
        fields_have_metadata(s.take(n)),
    ensures
        fields_have_metadata(s),
    decreases s.len() - n,
{
    if n < s.len() {
        assert(s.take(n + 1).drop_last() =~= s.take(n));
        lemma_fields_prefix(s, n + 1);
    } else {
        assert(s.take(n) =~= s);
    }
}

fn fields_contain_metadata(fs: &Vec<Field>) -> (r: bool)
    ensures
        r == fields_have_metadata(fs@),
    decreases fs, 0int,
{
    let mut i: usize = 0;
    assert(fs@.take(0) =~= Seq::<Field>::empty());
    while i < fs.len()
        invariant
            i <= fs@.len(),
            !fields_have_metadata(fs@.take(i as int)),
        decreases fs.len() - i,
    {
        proof {
            assert(decreases_to!(*fs => fs@));
            assert(decreases_to!(fs@ => fs@[i as int]));
            assert(decreases_to!(fs@[i as int] => fs@[i as int].tpe));
            assert(fs@.take(i as int + 1).drop_last() =~= fs@.take(i as int));
        }
        if type_contains_metadata(&fs[i].tpe) {
            proof {
                lemma_fields_prefix(fs@, i as int + 1);
            }
            return true;
        }
        i = i + 1;
    }
    assert(fs@.take(i as int) =~= fs@);
    false
}

/// Whether a type expression, or a type nested in it, carries a metadata scope.
fn type_contains_metadata(t: &Type) -> (r: bool)
    ensures
        r == type_has_metadata(*t),
    decreases t, 1int,
{
    if !t.attributes().metadata.is_empty() {
        return true;
    }
    match t {
        Type::Reference(_, _, args) => {
            proof {
                assert(decreases_to!(*t => (*t)->Reference_2));
            }
            types_contain_metadata(args)
        },
        Type::Tuple(_, els) => {
            proof {
                assert(decreases_to!(*t => (*t)->Tuple_1));
            }
            types_contain_metadata(els)
        },
        Type::Record(_, fs) => {
            proof {
                assert(decreases_to!(*t => (*t)->Record_1));
            }
            fields_contain_metadata(fs)
        },
        Type::ExtensibleRecord(_, _, fs) => {
            proof {
                assert(decreases_to!(*t => (*t)->ExtensibleRecord_2));
            }
            fields_contain_metadata(fs)
        },
        Type::Function(_, p, r) => {
            proof {
                assert(decreases_to!(*t => (*t)->Function_1));
                assert(decreases_to!(*t => (*t)->Function_2));
            }
            type_contains_metadata(p) || type_contains_metadata(r)
        },
        _ => false,
    }
}

fn spec_args_contain_metadata(args: &Vec<ConstructorArgSpec>) -> (r: bool)
    ensures
        r == exists|j: int| 0 <= j < args@.len() && #[trigger] type_has_metadata(args@[j].arg_type),
{
    let mut j: usize = 0;
    while j < args.len()
        invariant
            j <= args@.len(),
            forall|k: int| 0 <= k < j ==> !#[trigger] type_has_metadata(args@[k].arg_type),
        decreases args.len() - j,
    {
        if type_contains_metadata(&args[j].arg_type) {
            return true;
        }
        j = j + 1;
    }
    false
}

fn def_args_contain_metadata(args: &Vec<ConstructorArg>) -> (r: bool)
    ensures
        r == exists|j: int| 0 <= j < args@.len() && #[trigger] type_has_metadata(args@[j].arg_type),
{
    let mut j: usize = 0;
    while j < args.len()
        invariant
            j <= args@.len(),
            forall|k: int| 0 <= k < j ==> !#[trigger] type_has_metadata(args@[k].arg_type),
        decreases args.len() - j,
    {
        if type_contains_metadata(&args[j].arg_type) {
            return true;
        }
        j = j + 1;
    }
    false
}

fn constructor_specs_contain_metadata(cs: &Vec<ConstructorSpecification>) -> (r: bool)
    ensures
        r == constructor_specs_have_metadata(cs@),
{
    let mut i: usize = 0;
    while i < cs.len()
        invariant
            i <= cs@.len(),
            forall|k: int, j: int|
                0 <= k < i && 0 <= j < cs@[k].args@.len() ==> !#[trigger] type_has_metadata(cs@[k].args@[j].arg_type),
        decreases cs.len() - i,
    {
        if spec_args_contain_metadata(&cs[i].args) {
            return true;
        }
        i = i + 1;
    }
    false
}

fn constructor_defs_contain_metadata(cs: &Vec<ConstructorDefinition>) -> (r: bool)
    ensures
        r == constructor_defs_have_metadata(cs@),
{
    let mut i: usize = 0;
    while i < cs.len()
        invariant
            i <= cs@.len(),
            forall|k: int, j: int|
                0 <= k < i && 0 <= j < cs@[k].args@.len() ==> !#[trigger] type_has_metadata(cs@[k].args@[j].arg_type),
        decreases cs.len() - i,
    {
        if def_args_contain_metadata(&cs[i].args) {
            return true;
        }
        i = i + 1;
    }
    false
}

impl LinkedMetadataCarrier for Type {
    open spec fn has_linked_metadata(&self) -> bool {
        type_has_metadata(*self)
    }

    fn contains_linked_metadata(&self) -> (r: bool) {
        type_contains_metadata(self)
    }
}

impl LinkedMetadataCarrier for TypeSpecification {
    open spec fn has_linked_metadata(&self) -> bool {
        match *self {
            TypeSpecification::TypeAliasSpecification { type_expr, .. } => type_has_metadata(type_expr),
            TypeSpecification::OpaqueTypeSpecification { .. } => false,
            TypeSpecification::CustomTypeSpecification { constructors, .. } => constructor_specs_have_metadata(
                constructors@,
            ),
            TypeSpecification::DerivedTypeSpecification { base_type, .. } => type_has_metadata(base_type),
        }
    }

    fn contains_linked_metadata(&self) -> (r: bool) {
        match self {
            TypeSpecification::TypeAliasSpecification { type_expr, .. } => type_contains_metadata(type_expr),
            TypeSpecification::OpaqueTypeSpecification { .. } => false,
            TypeSpecification::CustomTypeSpecification { constructors, .. } => constructor_specs_contain_metadata(
                constructors,
            ),
            TypeSpecification::DerivedTypeSpecification { base_type, .. } => type_contains_metadata(base_type),
        }
    }
}

impl LinkedMetadataCarrier for TypeDefinition {
    open spec fn has_linked_metadata(&self) -> bool {
        match *self {
            TypeDefinition::TypeAliasDefinition { type_expr, .. } => type_has_metadata(type_expr),
            TypeDefinition::CustomTypeDefinition { constructors, .. } => constructor_defs_have_metadata(
                constructors.value@,
            ),
            TypeDefinition::IncompleteTypeDefinition { partial_type_expr, .. } => match partial_type_expr {
                Some(t) => type_has_metadata(t),
                None => false,
            },
        }
    }

    fn contains_linked_metadata(&self) -> (r: bool) {
        match self {
            TypeDefinition::TypeAliasDefinition { type_expr, .. } => type_contains_metadata(type_expr),
            TypeDefinition::CustomTypeDefinition { constructors, .. } => constructor_defs_contain_metadata(
                &constructors.value,
            ),
            TypeDefinition::IncompleteTypeDefinition { partial_type_expr, .. } => match partial_type_expr {
                Some(t) => type_contains_metadata(t),
                None => false,
            },
        }
    }
}

impl<T: LinkedMetadataCarrier> LinkedMetadataCarrier for AccessControlled<T> {
    open spec fn has_linked_metadata(&self) -> bool {
        self.value.has_linked_metadata()
    }

    fn contains_linked_metadata(&self) -> (r: bool) {
        self.value.contains_linked_metadata()
    }
}

} // verus!
