//! The public face a package's definitions present.

use crate::ir::v4::access::{Access, AccessControlled};
use crate::ir::v4::module::{Documented, ModuleDefinition, ModuleSpecification};
use crate::ir::v4::value::{ValueDefinition, ValueSpecification};
use crate::ir::v4::types::{
    ConstructorArg, ConstructorArgSpec, ConstructorDefinition, ConstructorSpecification,
    TypeDefinition, TypeSpecification,
};
use vstd::prelude::*;

verus! {

/// Whether a constructor specification states the constructor it was made from.
pub open spec fn states_constructor(s: ConstructorSpecification, d: ConstructorDefinition) -> bool {
    &&& s.name == d.name
    &&& s.args@.len() == d.args@.len()
    &&& forall|j: int|
        0 <= j < s.args@.len() ==> (#[trigger] s.args@[j]).name == d.args@[j].name
            && s.args@[j].arg_type == d.args@[j].arg_type
}

fn constructor_to_specification(c: ConstructorDefinition) -> (r: ConstructorSpecification)
    ensures
        states_constructor(r, c),
{
    let ConstructorDefinition { name, args } = c;
    let ghost all = args@;
    assert(all.len() == args.len());
    let mut rest = args;
    let mut out: Vec<ConstructorArgSpec> = Vec::new();
    let mut i: usize = 0;
    assert(rest@ =~= all.skip(0));
    while rest.len() > 0
        invariant
            all.len() <= usize::MAX,
            i + rest@.len() == all.len(),
            rest@ == all.skip(i as int),
            out@.len() == i,
            forall|j: int|
                0 <= j < i ==> (#[trigger] out@[j]).name == all[j].name && out@[j].arg_type
                    == all[j].arg_type,
        decreases rest.len(),
    {
        let a: ConstructorArg = rest.remove(0);
        assert(a == all[i as int]);
        let ConstructorArg { name: arg_name, arg_type } = a;
        out.push(ConstructorArgSpec { name: arg_name, arg_type });
        assert(rest@ =~= all.skip(i as int + 1));
        i = i + 1;
    }
    ConstructorSpecification { name, args: out }
}

/// Whether `s` is the specification type definition `d` presents.
pub open spec fn type_states(s: TypeSpecification, d: TypeDefinition) -> bool {
    match d {
        TypeDefinition::TypeAliasDefinition { type_params, type_expr } => s
            == (TypeSpecification::TypeAliasSpecification { type_params, type_expr }),
        TypeDefinition::CustomTypeDefinition { type_params, constructors } => match constructors.access {
            Access::Public => s matches TypeSpecification::CustomTypeSpecification {
                type_params: ps,
                constructors: cs,
            } && ps == type_params && cs@.len() == constructors.value@.len() && forall|k: int|
                0 <= k < cs@.len() ==> states_constructor(#[trigger] cs@[k], constructors.value@[k]),
            Access::Private => s == (TypeSpecification::OpaqueTypeSpecification { type_params }),
        },
        TypeDefinition::IncompleteTypeDefinition { type_params, .. } => s
            == (TypeSpecification::OpaqueTypeSpecification { type_params }),
    }
}

/// The public face a type definition presents: an alias as itself, a custom type with
/// public constructors as its constructors, and a custom type with private constructors
/// or an incomplete type as an opaque type.
pub fn type_to_specification(definition: TypeDefinition) -> (r: TypeSpecification)
    ensures
        type_states(r, definition),
{
    match definition {
        TypeDefinition::TypeAliasDefinition { type_params, type_expr } => {
            TypeSpecification::TypeAliasSpecification { type_params, type_expr }
        },
        TypeDefinition::CustomTypeDefinition { type_params, constructors } => {
            match constructors.access {
                Access::Public => {
                    let ghost all = constructors.value@;
                    assert(all.len() == constructors.value.len());
                    let mut rest = constructors.value;
                    let mut out: Vec<ConstructorSpecification> = Vec::new();
                    let mut i: usize = 0;
                    assert(rest@ =~= all.skip(0));
                    while rest.len() > 0
                        invariant
                            all.len() <= usize::MAX,
                            i + rest@.len() == all.len(),
                            rest@ == all.skip(i as int),
                            out@.len() == i,
                            forall|j: int|
                                0 <= j < i ==> states_constructor(#[trigger] out@[j], all[j]),
                        decreases rest.len(),
                    {
                        let c = rest.remove(0);
                        assert(c == all[i as int]);
                        out.push(constructor_to_specification(c));
                        assert(rest@ =~= all.skip(i as int + 1));
                        i = i + 1;
                    }
                    TypeSpecification::CustomTypeSpecification { type_params, constructors: out }
                },
                Access::Private => TypeSpecification::OpaqueTypeSpecification { type_params },
            }
        },
        TypeDefinition::IncompleteTypeDefinition { type_params, .. } => {
            TypeSpecification::OpaqueTypeSpecification { type_params }
        },
    }
}

/// Whether `s` states value definition `d`: its inputs' names and types in order, and its
/// output type.
pub open spec fn value_states(s: ValueSpecification, d: ValueDefinition) -> bool {
    &&& d.output_type == Some(s.output)
    &&& s.inputs@.len() == d.input_types@.len()
    &&& forall|k: int|
        0 <= k < s.inputs@.len() ==> (#[trigger] s.inputs@[k]).0 == d.input_types@[k].0 && s.inputs@[k].1
            == d.input_types@[k].1.input_type
}

/// The specification a value definition states, or nothing while its output type is
/// unknown.
pub fn value_to_specification(definition: ValueDefinition) -> (r: Option<ValueSpecification>)
    ensures
        match r {
            Some(s) => value_states(s, definition),
            None => definition.output_type is None,
        },
{
    let ValueDefinition { input_types, output_type, body: _ } = definition;
    let output = match output_type {
        Some(t) => t,
        None => {
            return None;
        },
    };
    let ghost all = input_types@;
    assert(all.len() == input_types.len());
    let mut rest = input_types;
    let mut inputs: Vec<(String, crate::ir::v4::types::Type)> = Vec::new();
    let mut i: usize = 0;
    assert(rest@ =~= all.skip(0));
    while rest.len() > 0
        invariant
            all.len() <= usize::MAX,
            i + rest@.len() == all.len(),
            rest@ == all.skip(i as int),
            inputs@.len() == i,
            forall|k: int| 0 <= k < i ==> (#[trigger] inputs@[k]).0 == all[k].0 && inputs@[k].1 == all[k].1.input_type,
        decreases rest.len(),
    {
        let (name, entry) = rest.remove(0);
        assert((name, entry) == all[i as int]);
        inputs.push((name, entry.input_type));
        assert(rest@ =~= all.skip(i as int + 1));
        i = i + 1;
    }
    Some(ValueSpecification { inputs, output })
}

pub open spec fn is_public_type(e: (String, AccessControlled<Documented<TypeDefinition>>)) -> bool {
    e.1.access == Access::Public
}

pub open spec fn is_stated_value(e: (String, AccessControlled<Documented<ValueDefinition>>)) -> bool {
    e.1.access == Access::Public && e.1.value.value.output_type is Some
}

pub open spec fn is_public_module(e: (String, AccessControlled<ModuleDefinition>)) -> bool {
    e.1.access == Access::Public
}

/// Whether `s` is the specification module definition `d` presents: its public types, and
/// its public values whose output type is known, in order, each with its documentation.
pub open spec fn module_states(s: ModuleSpecification, d: ModuleDefinition) -> bool {
    let ts = d.types@.filter(|e: (String, AccessControlled<Documented<TypeDefinition>>)| is_public_type(e));
    let vs = d.values@.filter(|e: (String, AccessControlled<Documented<ValueDefinition>>)| is_stated_value(e));
    &&& s.doc == d.doc
    &&& s.types@.len() == ts.len()
    &&& forall|k: int|
        0 <= k < ts.len() ==> (#[trigger] s.types@[k]).0 == ts[k].0 && s.types@[k].1.doc == ts[k].1.value.doc
            && type_states(s.types@[k].1.value, ts[k].1.value.value)
    &&& s.values@.len() == vs.len()
    &&& forall|k: int|
        0 <= k < vs.len() ==> (#[trigger] s.values@[k]).0 == vs[k].0 && s.values@[k].1.doc == vs[k].1.value.doc
            && value_states(s.values@[k].1.value, vs[k].1.value.value)
}

/// The public face of a module definition.
pub fn module_to_specification(definition: ModuleDefinition) -> (r: ModuleSpecification)
    ensures
        module_states(r, definition),
{
    let ghost d = definition;
    let ModuleDefinition { types, values, doc } = definition;
    let ghost tall = types@;
    assert(tall.len() == types.len());
    let mut rest = types;
    let mut tout: Vec<(String, Documented<TypeSpecification>)> = Vec::new();
    let mut i: usize = 0;
    assert(rest@ =~= tall.skip(0));
    assert(tall.take(0).filter(|e: (String, AccessControlled<Documented<TypeDefinition>>)| is_public_type(e)) =~= Seq::empty());
    while rest.len() > 0
        invariant
            tall.len() <= usize::MAX,
            i + rest@.len() == tall.len(),
            rest@ == tall.skip(i as int),
            ({
                let ts = tall.take(i as int).filter(|e: (String, AccessControlled<Documented<TypeDefinition>>)| is_public_type(e));
                &&& tout@.len() == ts.len()
                &&& forall|k: int|
                    0 <= k < ts.len() ==> (#[trigger] tout@[k]).0 == ts[k].0 && tout@[k].1.doc == ts[k].1.value.doc
                        && type_states(tout@[k].1.value, ts[k].1.value.value)
            }),
        decreases rest.len(),
    {
        let e = rest.remove(0);
        assert(e == tall[i as int]);
        proof {
            assert(tall.take(i as int + 1) =~= tall.take(i as int).push(e));
            tall.take(i as int).lemma_filter_push(e, |e: (String, AccessControlled<Documented<TypeDefinition>>)| is_public_type(e));
        }
        let (name, controlled) = e;
        match controlled.access {
            Access::Public => {
                let Documented { doc: tdoc, value } = controlled.value;
                tout.push((name, Documented { doc: tdoc, value: type_to_specification(value) }));
            },
            Access::Private => {},
        }
        assert(rest@ =~= tall.skip(i as int + 1));
        i = i + 1;
    }
    assert(tall.take(i as int) =~= tall);
    let ghost vall = values@;
    assert(vall.len() == values.len());
    let mut vrest = values;
    let mut vout: Vec<(String, Documented<ValueSpecification>)> = Vec::new();
    let mut j: usize = 0;
    assert(vrest@ =~= vall.skip(0));
    assert(vall.take(0).filter(|e: (String, AccessControlled<Documented<ValueDefinition>>)| is_stated_value(e)) =~= Seq::empty());
    while vrest.len() > 0
        invariant
            vall.len() <= usize::MAX,
            j + vrest@.len() == vall.len(),
            vrest@ == vall.skip(j as int),
            ({
                let vs = vall.take(j as int).filter(|e: (String, AccessControlled<Documented<ValueDefinition>>)| is_stated_value(e));
                &&& vout@.len() == vs.len()
                &&& forall|k: int|
                    0 <= k < vs.len() ==> (#[trigger] vout@[k]).0 == vs[k].0 && vout@[k].1.doc == vs[k].1.value.doc
                        && value_states(vout@[k].1.value, vs[k].1.value.value)
            }),
        decreases vrest.len(),
    {
        let e = vrest.remove(0);
        assert(e == vall[j as int]);
        proof {
            assert(vall.take(j as int + 1) =~= vall.take(j as int).push(e));
            vall.take(j as int).lemma_filter_push(e, |e: (String, AccessControlled<Documented<ValueDefinition>>)| is_stated_value(e));
        }
        let (name, controlled) = e;
        match controlled.access {
            Access::Public => {
                let Documented { doc: vdoc, value } = controlled.value;
                match value_to_specification(value) {
                    Some(spec) => {
                        vout.push((name, Documented { doc: vdoc, value: spec }));
                    },
                    None => {},
                }
            },
            Access::Private => {},
        }
        assert(vrest@ =~= vall.skip(j as int + 1));
        j = j + 1;
    }
    assert(vall.take(j as int) =~= vall);
    ModuleSpecification { types: tout, values: vout, doc }
}

/// A package's specification: its public modules' specifications, by name.
#[derive(Debug, PartialEq)]
pub struct PackageSpecification {
    pub modules: Vec<(String, ModuleSpecification)>,
}

/// A package's module definitions, each under an access level, by name.
#[derive(Debug, PartialEq)]
pub struct PackageDefinition {
    pub modules: Vec<(String, AccessControlled<ModuleDefinition>)>,
}

/// Whether `s` is the specification package definition `d` presents: its public modules,
/// in order, each as its specification.
pub open spec fn package_states(s: PackageSpecification, d: PackageDefinition) -> bool {
    let ms = d.modules@.filter(|e: (String, AccessControlled<ModuleDefinition>)| is_public_module(e));
    &&& s.modules@.len() == ms.len()
    &&& forall|k: int|
        0 <= k < ms.len() ==> (#[trigger] s.modules@[k]).0 == ms[k].0 && module_states(s.modules@[k].1, ms[k].1.value)
}

impl PackageDefinition {
    /// The public face of this package: the specification a reader of it sees. Only public
    /// modules, types and values appear; a custom type with private constructors or an
    /// incomplete type is opaque, and a value whose output type is unknown is left out.
    pub fn to_specification(self) -> (r: PackageSpecification)
        ensures
            package_states(r, self),
    {
        let ghost all = self.modules@;
        assert(all.len() == self.modules.len());
        let mut rest = self.modules;
        let mut out: Vec<(String, ModuleSpecification)> = Vec::new();
        let mut i: usize = 0;
        assert(rest@ =~= all.skip(0));
        assert(all.take(0).filter(|e: (String, AccessControlled<ModuleDefinition>)| is_public_module(e)) =~= Seq::empty());
        while rest.len() > 0
            invariant
                all.len() <= usize::MAX,
                i + rest@.len() == all.len(),
                rest@ == all.skip(i as int),
                ({
                    let ms = all.take(i as int).filter(|e: (String, AccessControlled<ModuleDefinition>)| is_public_module(e));
                    &&& out@.len() == ms.len()
                    &&& forall|k: int|
                        0 <= k < ms.len() ==> (#[trigger] out@[k]).0 == ms[k].0 && module_states(out@[k].1, ms[k].1.value)
                }),
            decreases rest.len(),
        {
            let e = rest.remove(0);
            assert(e == all[i as int]);
            proof {
                assert(all.take(i as int + 1) =~= all.take(i as int).push(e));
                all.take(i as int).lemma_filter_push(e, |e: (String, AccessControlled<ModuleDefinition>)| is_public_module(e));
            }
            let (name, controlled) = e;
            match controlled.access {
                Access::Public => {
                    out.push((name, module_to_specification(controlled.value)));
                },
                Access::Private => {},
            }
            assert(rest@ =~= all.skip(i as int + 1));
            i = i + 1;
        }
        assert(all.take(i as int) =~= all);
        PackageSpecification { modules: out }
    }
}

} // verus!
