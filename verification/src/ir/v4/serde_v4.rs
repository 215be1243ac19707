//! Writing v4 type expressions as JSON.
//!
//! Every expression is a single-member wrapper object: `{ "Variable": { "name": "a" } }`.
//! The compact encoding writes the shortest form a reader accepts (`"a"` for a variable,
//! `"morphir/SDK:basics#int"` for a reference with no arguments) and falls back to the
//! expanded spelling, whose payload opens with `attributes`, exactly when a node carries
//! attributes. Empty attributes are never written.

use crate::ir::v4::attributes::{type_attributes_plain, value_attributes_plain, TypeAttributes, ValueAttributes};
use crate::ir::v4::literal::{literal_json, serialize_literal, Literal};
use crate::ir::v4::pattern::Pattern;
use crate::ir::v4::value::value_attributes;
use crate::ir::v4::linked_metadata::{push_scope_members, scope_json_members};
use crate::ir::v4::access::access_tag;
use crate::ir::v4::types::{
    ConstructorArg, ConstructorArgSpec, ConstructorDefinition, ConstructorSpecification, Field, Incompleteness, Type,
    TypeDefinition, TypeSpecification,
};
use crate::ir::v4::value::{
    HoleReason, InputTypeEntry, LetBinding, NativeHint, NativeInfo, PatternCase, RecordFieldEntry, Value, ValueBody,
    ValueDefinition,
};
use crate::json::{
    copy_members, first_member, first_member_index, item_views, lemma_first_member,
    lemma_item_views_push, lemma_member_views, lemma_member_views_update, member_views,
    member_named, push_member, single_member_object, JsonValue, JsonView,
};
use crate::naming::fqname::{fqname_canonical, FQName};
use crate::naming::name::{canonical_in, canonical_style, Name};
use crate::text::str_eq;
use vstd::prelude::*;

verus! {

/// How type expressions are written: the shortest spelling, or always the wrapper.
#[derive(Debug, Clone, Copy, PartialEq, Eq, Structural)]
pub enum TypeEncoding {
    Compact,
    Expanded,
}

// ---------------------------------------------------------------------------
// What a type is written as
// ---------------------------------------------------------------------------

/// A name is written as its canonical string.
pub open spec fn name_json(n: Name) -> JsonView {
    JsonView::Str(canonical_in(n@, canonical_style()))
}

/// A fully qualified name is written as its canonical string.
pub open spec fn fqname_json(f: FQName) -> JsonView {
    JsonView::Str(fqname_canonical(f@))
}

/// The single-member wrapper object `{tag: payload}`.
pub open spec fn tagged(tag: Seq<char>, payload: JsonView) -> JsonView {
    JsonView::Object(seq![(tag, payload)])
}

/// The member `k` holding an object of `ms`, or nothing when `ms` is empty.
pub open spec fn object_member(k: Seq<char>, ms: Seq<(String, JsonValue)>) -> Seq<(Seq<char>, JsonView)> {
    if ms.len() == 0 {
        Seq::<(Seq<char>, JsonView)>::empty()
    } else {
        seq![(k, JsonView::Object(member_views(ms)))]
    }
}

/// The object type attributes are written as: `source`, `constraints` and `extensions`
/// when present, then the metadata scope's members.
pub open spec fn type_attributes_json(a: TypeAttributes) -> JsonView {
    JsonView::Object(
        (match a.source {
            Some(s) => seq![("source"@, s@)],
            None => Seq::<(Seq<char>, JsonView)>::empty(),
        }) + object_member("constraints"@, a.constraints@) + object_member("extensions"@, a.extensions@)
            + scope_json_members(a.metadata),
    )
}

/// The `attributes` member a node's payload opens with, or nothing when they carry nothing.
pub open spec fn attributes_members(a: TypeAttributes) -> Seq<(Seq<char>, JsonView)> {
    if type_attributes_plain(a) {
        Seq::<(Seq<char>, JsonView)>::empty()
    } else {
        seq![("attributes"@, type_attributes_json(a))]
    }
}

/// The attributes a type carries.
pub open spec fn attributes_of(t: Type) -> TypeAttributes {
    match t {
        Type::Variable(a, _) => a,
        Type::Reference(a, _, _) => a,
        Type::Tuple(a, _) => a,
        Type::Record(a, _) => a,
        Type::ExtensibleRecord(a, _, _) => a,
        Type::Function(a, _, _) => a,
        Type::Unit(a) => a,
    }
}

/// What a type expression is written as: compact when that encoding is chosen and the node
/// carries no attributes, expanded otherwise. Nested types use the same encoding.
pub open spec fn type_json(t: Type, e: TypeEncoding) -> JsonView
    decreases t, 2int,
{
    if e == TypeEncoding::Compact && type_attributes_plain(attributes_of(t)) {
        compact_type_json(t, e)
    } else {
        expanded_type_json(t, e)
    }
}

/// The expanded spelling: a wrapper whose payload opens with any attributes.
pub open spec fn expanded_type_json(t: Type, e: TypeEncoding) -> JsonView
    decreases t, 1int,
{
    match t {
        Type::Variable(a, n) => tagged(
            "Variable"@,
            JsonView::Object(attributes_members(a) + seq![("name"@, name_json(n))]),
        ),
        Type::Reference(a, f, args) => tagged(
            "Reference"@,
            JsonView::Object(
                attributes_members(a) + seq![("fqname"@, fqname_json(f))] + if args@.len() == 0 {
                    Seq::<(Seq<char>, JsonView)>::empty()
                } else {
                    seq![("args"@, JsonView::Array(types_json(args@, e)))]
                },
            ),
        ),
        Type::Tuple(a, els) => tagged(
            "Tuple"@,
            JsonView::Object(attributes_members(a) + seq![("elements"@, JsonView::Array(types_json(els@, e)))]),
        ),
        Type::Record(a, fs) => tagged(
            "Record"@,
            JsonView::Object(
                attributes_members(a) + seq![("fields"@, JsonView::Object(fields_json(fs@, e, fs@.len() as int)))],
            ),
        ),
        Type::ExtensibleRecord(a, v, fs) => tagged(
            "ExtensibleRecord"@,
            JsonView::Object(
                attributes_members(a) + seq![
                    ("variable"@, name_json(v)),
                    ("fields"@, JsonView::Object(fields_json(fs@, e, fs@.len() as int))),
                ],
            ),
        ),
        Type::Function(a, p, r) => tagged(
            "Function"@,
            JsonView::Object(
                attributes_members(a) + seq![("parameterType"@, type_json(*p, e)), ("returnType"@, type_json(*r, e))],
            ),
        ),
        Type::Unit(a) => tagged("Unit"@, JsonView::Object(attributes_members(a))),
    }
}

/// The compact spelling: a variable is its name, a reference with no arguments its
/// fully qualified name, a parameterized reference and a tuple are arrays under their tag.
pub open spec fn compact_type_json(t: Type, e: TypeEncoding) -> JsonView
    decreases t, 1int,
{
    match t {
        Type::Variable(_, n) => name_json(n),
        Type::Reference(_, f, args) => if args@.len() == 0 {
            fqname_json(f)
        } else {
            tagged("Reference"@, JsonView::Array(seq![fqname_json(f)] + types_json(args@, e)))
        },
        Type::Tuple(_, els) => tagged("Tuple"@, JsonView::Array(types_json(els@, e))),
        Type::Record(_, fs) => tagged(
            "Record"@,
            JsonView::Object(seq![("fields"@, JsonView::Object(fields_json(fs@, e, fs@.len() as int)))]),
        ),
        Type::ExtensibleRecord(_, v, fs) => tagged(
            "ExtensibleRecord"@,
            JsonView::Object(
                seq![
                    ("variable"@, name_json(v)),
                    ("fields"@, JsonView::Object(fields_json(fs@, e, fs@.len() as int))),
                ],
            ),
        ),
        Type::Function(_, p, r) => tagged(
            "Function"@,
            JsonView::Object(seq![("parameterType"@, type_json(*p, e)), ("returnType"@, type_json(*r, e))]),
        ),
        Type::Unit(_) => tagged("Unit"@, JsonView::Object(Seq::<(Seq<char>, JsonView)>::empty())),
    }
}

/// A list of types, each written in turn.
pub open spec fn types_json(s: Seq<Type>, e: TypeEncoding) -> Seq<JsonView>
    decreases s, 0int,
{
    if s.len() == 0 {
        Seq::<JsonView>::empty()
    } else {
        types_json(s.drop_last(), e).push(type_json(s.last(), e))
    }
}

/// The members a record's first `n` fields are written as: keyed by field name in
/// declaration order; a name that repeats keeps its first position and takes the last
/// type written under it.
pub open spec fn fields_json(fs: Seq<Field>, e: TypeEncoding, n: int) -> Seq<(Seq<char>, JsonView)>
    decreases fs, n,
{
    if n <= 0 || n > fs.len() {
        Seq::<(Seq<char>, JsonView)>::empty()
    } else {
        let prev = fields_json(fs, e, n - 1);
        let k = canonical_in(fs[n - 1].name@, canonical_style());
        let v = type_json(fs[n - 1].tpe, e);
        match first_member(prev, k) {
            Some(p) => prev.update(p, (k, v)),
            None => prev.push((k, v)),
        }
    }
}

// ---------------------------------------------------------------------------
// Writing
// ---------------------------------------------------------------------------

/// Append the members of an object written under `k`, unless there are none.
fn push_object_member(out: &mut Vec<(String, JsonValue)>, k: &str, ms: &Vec<(String, JsonValue)>)
    ensures
        member_views(final(out)@) == member_views(old(out)@) + object_member(k@, ms@),
{
    if ms.len() == 0 {
        assert(member_views(out@) =~= member_views(out@) + object_member(k@, ms@));
    } else {
        let ghost before = member_views(out@);
        push_member(out, k, JsonValue::Object(copy_members(ms)));
        assert(member_views(out@) =~= before + object_member(k@, ms@));
    }
}

/// The JSON type attributes are written as.
pub fn type_attributes_to_json(a: &TypeAttributes) -> (r: JsonValue)
    ensures
        r@ == type_attributes_json(*a),
{
    let mut out: Vec<(String, JsonValue)> = Vec::new();
    let ghost empty = member_views(out@);
    assert(empty =~= Seq::<(Seq<char>, JsonView)>::empty());
    match &a.source {
        Some(s) => {
            push_member(&mut out, "source", s.duplicate());
        },
        None => {},
    }
    let ghost first = member_views(out@);
    assert(first =~= match a.source {
        Some(s) => seq![("source"@, s@)],
        None => Seq::<(Seq<char>, JsonView)>::empty(),
    });
    push_object_member(&mut out, "constraints", &a.constraints);
    push_object_member(&mut out, "extensions", &a.extensions);
    push_scope_members(&a.metadata, &mut out);
    assert(member_views(out@) =~= (match a.source {
        Some(s) => seq![("source"@, s@)],
        None => Seq::<(Seq<char>, JsonView)>::empty(),
    }) + object_member("constraints"@, a.constraints@) + object_member("extensions"@, a.extensions@)
        + scope_json_members(a.metadata));
    JsonValue::Object(out)
}

/// Start a payload with the `attributes` member when the attributes carry anything.
fn attributes_payload(a: &TypeAttributes) -> (r: Vec<(String, JsonValue)>)
    ensures
        member_views(r@) == attributes_members(*a),
{
    let mut out: Vec<(String, JsonValue)> = Vec::new();
    assert(member_views(out@) =~= Seq::<(Seq<char>, JsonView)>::empty());
    if !a.is_empty() {
        push_member(&mut out, "attributes", type_attributes_to_json(a));
        assert(member_views(out@) =~= attributes_members(*a));
    }
    out
}

/// A name as a JSON string.
fn name_value(n: &Name) -> (r: JsonValue)
    ensures
        r@ == name_json(*n),
{
    JsonValue::Str(n.to_canonical_string())
}

/// A fully qualified name as a JSON string.
fn fqname_value(f: &FQName) -> (r: JsonValue)
    ensures
        r@ == fqname_json(*f),
{
    JsonValue::Str(f.to_canonical_string())
}

/// Write a type expression.
pub fn serialize_type(tpe: &Type, encoding: TypeEncoding) -> (r: JsonValue)
    ensures
        r@ == type_json(*tpe, encoding),
    decreases tpe, 2int,
{
    if encoding == TypeEncoding::Compact && tpe.attributes().is_empty() {
        serialize_compact_type(tpe, encoding)
    } else {
        serialize_expanded_type(tpe, encoding)
    }
}

/// Write a list of type expressions.
fn serialize_types(ts: &Vec<Type>, encoding: TypeEncoding) -> (r: Vec<JsonValue>)
    ensures
        item_views(r@) == types_json(ts@, encoding),
    decreases ts, 0int,
{
    let mut out: Vec<JsonValue> = Vec::new();
    let mut i: usize = 0;
    assert(ts@.take(0) =~= Seq::<Type>::empty());
    assert(item_views(out@) =~= Seq::<JsonView>::empty());
    while i < ts.len()
        invariant
            i <= ts@.len(),
            item_views(out@) == types_json(ts@.take(i as int), encoding),
        decreases ts.len() - i,
    {
        proof {
            assert(decreases_to!(*ts => ts@));
            assert(decreases_to!(ts@ => ts@[i as int]));
        }
        let x = serialize_type(&ts[i], encoding);
        proof {
            lemma_item_views_push(out@, x);
            assert(ts@.take(i as int + 1).drop_last() =~= ts@.take(i as int));
            assert(ts@.take(i as int + 1).last() == ts@[i as int]);
        }
        out.push(x);
        i = i + 1;
    }
    assert(ts@.take(i as int) =~= ts@);
    out
}

/// Write a record's fields as members keyed by field name.
fn field_map(fs: &Vec<Field>, encoding: TypeEncoding) -> (r: Vec<(String, JsonValue)>)
    ensures
        member_views(r@) == fields_json(fs@, encoding, fs@.len() as int),
    decreases fs, 0int,
{
    let mut out: Vec<(String, JsonValue)> = Vec::new();
    let mut i: usize = 0;
    assert(member_views(out@) =~= Seq::<(Seq<char>, JsonView)>::empty());
    while i < fs.len()
        invariant
            i <= fs@.len(),
            member_views(out@) == fields_json(fs@, encoding, i as int),
        decreases fs.len() - i,
    {
        proof {
            assert(decreases_to!(*fs => fs@));
            assert(decreases_to!(fs@ => fs@[i as int]));
            assert(decreases_to!(fs@[i as int] => fs@[i as int].tpe));
        }
        let key = fs[i].name.to_canonical_string();
        let value = serialize_type(&fs[i].tpe, encoding);
        let ghost prev = member_views(out@);
        proof {
            lemma_member_views(out@);
            lemma_first_member(prev, key@);
        }
        match first_member_index(&out, key.as_str()) {
            Some(p) => {
                proof {
                    lemma_member_views_update(out@, p as int, (key, value));
                }
                out.set(p, (key, value));
            },
            None => {
                proof {
                    crate::json::lemma_member_views_push(out@, key, value);
                }
                out.push((key, value));
            },
        }
        i = i + 1;
    }
    out
}

/// Write the expanded spelling of a type expression.
fn serialize_expanded_type(tpe: &Type, encoding: TypeEncoding) -> (r: JsonValue)
    ensures
        r@ == expanded_type_json(*tpe, encoding),
    decreases tpe, 1int,
{
    match tpe {
        Type::Variable(a, n) => {
            let mut payload = attributes_payload(a);
            let ghost before = member_views(payload@);
            push_member(&mut payload, "name", name_value(n));
            assert(member_views(payload@) =~= before + seq![("name"@, name_json(*n))]);
            single_member_object("Variable", JsonValue::Object(payload))
        },
        Type::Reference(a, f, args) => {
            let mut payload = attributes_payload(a);
            let ghost before = member_views(payload@);
            push_member(&mut payload, "fqname", fqname_value(f));
            let ghost middle = member_views(payload@);
            if args.len() > 0 {
                proof {
                    assert(decreases_to!(*tpe => (*tpe)->Reference_2));
                }
                let items = serialize_types(args, encoding);
                push_member(&mut payload, "args", JsonValue::Array(items));
            }
            assert(member_views(payload@) =~= before + seq![("fqname"@, fqname_json(*f))] + if args@.len() == 0 {
                Seq::<(Seq<char>, JsonView)>::empty()
            } else {
                seq![("args"@, JsonView::Array(types_json(args@, encoding)))]
            });
            single_member_object("Reference", JsonValue::Object(payload))
        },
        Type::Tuple(a, els) => {
            let mut payload = attributes_payload(a);
            let ghost before = member_views(payload@);
            proof {
                assert(decreases_to!(*tpe => (*tpe)->Tuple_1));
            }
            let items = serialize_types(els, encoding);
            push_member(&mut payload, "elements", JsonValue::Array(items));
            assert(member_views(payload@) =~= before + seq![("elements"@, JsonView::Array(types_json(els@, encoding)))]);
            single_member_object("Tuple", JsonValue::Object(payload))
        },
        Type::Record(a, fs) => {
            let mut payload = attributes_payload(a);
            let ghost before = member_views(payload@);
            proof {
                assert(decreases_to!(*tpe => (*tpe)->Record_1));
            }
            let fields = field_map(fs, encoding);
            push_member(&mut payload, "fields", JsonValue::Object(fields));
            assert(member_views(payload@) =~= before + seq![
                ("fields"@, JsonView::Object(fields_json(fs@, encoding, fs@.len() as int))),
            ]);
            single_member_object("Record", JsonValue::Object(payload))
        },
        Type::ExtensibleRecord(a, v, fs) => {
            let mut payload = attributes_payload(a);
            let ghost before = member_views(payload@);
            push_member(&mut payload, "variable", name_value(v));
            proof {
                assert(decreases_to!(*tpe => (*tpe)->ExtensibleRecord_2));
            }
            let fields = field_map(fs, encoding);
            push_member(&mut payload, "fields", JsonValue::Object(fields));
            assert(member_views(payload@) =~= before + seq![
                ("variable"@, name_json(*v)),
                ("fields"@, JsonView::Object(fields_json(fs@, encoding, fs@.len() as int))),
            ]);
            single_member_object("ExtensibleRecord", JsonValue::Object(payload))
        },
        Type::Function(a, p, r) => {
            let mut payload = attributes_payload(a);
            let ghost before = member_views(payload@);
            proof {
                assert(decreases_to!(*tpe => (*tpe)->Function_1));
                assert(decreases_to!(*tpe => (*tpe)->Function_2));
            }
            let parameter = serialize_type(p, encoding);
            let result = serialize_type(r, encoding);
            push_member(&mut payload, "parameterType", parameter);
            push_member(&mut payload, "returnType", result);
            assert(member_views(payload@) =~= before + seq![
                ("parameterType"@, type_json(**p, encoding)),
                ("returnType"@, type_json(**r, encoding)),
            ]);
            single_member_object("Function", JsonValue::Object(payload))
        },
        Type::Unit(a) => {
            let payload = attributes_payload(a);
            single_member_object("Unit", JsonValue::Object(payload))
        },
    }
}

/// Write the compact spelling of a type expression.
fn serialize_compact_type(tpe: &Type, encoding: TypeEncoding) -> (r: JsonValue)
    ensures
        r@ == compact_type_json(*tpe, encoding),
    decreases tpe, 1int,
{
    match tpe {
        Type::Variable(_, n) => name_value(n),
        Type::Reference(_, f, args) => {
            if args.len() == 0 {
                fqname_value(f)
            } else {
                proof {
                    assert(decreases_to!(*tpe => (*tpe)->Reference_2));
                }
                let rest = serialize_types(args, encoding);
                let mut items: Vec<JsonValue> = Vec::new();
                let head = fqname_value(f);
                proof {
                    lemma_item_views_push(items@, head);
                }
                items.push(head);
                assert(item_views(items@) =~= seq![fqname_json(*f)]);
                let mut rest = rest;
                let mut j: usize = 0;
                let ghost rv = item_views(rest@);
                proof {
                    crate::json::lemma_item_views(rest@);
                }
                while j < rest.len()
                    invariant
                        j <= rest@.len(),
                        rv.len() == rest@.len(),
                        forall|q: int| 0 <= q < rest@.len() ==> #[trigger] rv[q] == rest@[q]@,
                        item_views(items@) == seq![fqname_json(*f)] + rv.take(j as int),
                    decreases rest.len() - j,
                {
                    let x = rest[j].duplicate();
                    proof {
                        lemma_item_views_push(items@, x);
                        assert(rv.take(j as int + 1) =~= rv.take(j as int).push(rv[j as int]));
                    }
                    items.push(x);
                    j = j + 1;
                }
                assert(rv.take(j as int) =~= rv);
                single_member_object("Reference", JsonValue::Array(items))
            }
        },
        Type::Tuple(_, els) => {
            proof {
                assert(decreases_to!(*tpe => (*tpe)->Tuple_1));
            }
            let items = serialize_types(els, encoding);
            single_member_object("Tuple", JsonValue::Array(items))
        },
        Type::Record(_, fs) => {
            proof {
                assert(decreases_to!(*tpe => (*tpe)->Record_1));
            }
            let fields = field_map(fs, encoding);
            let payload = single_member_object("fields", JsonValue::Object(fields));
            single_member_object("Record", payload)
        },
        Type::ExtensibleRecord(_, v, fs) => {
            let mut payload: Vec<(String, JsonValue)> = Vec::new();
            assert(member_views(payload@) =~= Seq::<(Seq<char>, JsonView)>::empty());
            push_member(&mut payload, "variable", name_value(v));
            proof {
                assert(decreases_to!(*tpe => (*tpe)->ExtensibleRecord_2));
            }
            let fields = field_map(fs, encoding);
            push_member(&mut payload, "fields", JsonValue::Object(fields));
            assert(member_views(payload@) =~= seq![
                ("variable"@, name_json(*v)),
                ("fields"@, JsonView::Object(fields_json(fs@, encoding, fs@.len() as int))),
            ]);
            single_member_object("ExtensibleRecord", JsonValue::Object(payload))
        },
        Type::Function(_, p, r) => {
            proof {
                assert(decreases_to!(*tpe => (*tpe)->Function_1));
                assert(decreases_to!(*tpe => (*tpe)->Function_2));
            }
            let parameter = serialize_type(p, encoding);
            let result = serialize_type(r, encoding);
            let mut payload: Vec<(String, JsonValue)> = Vec::new();
            assert(member_views(payload@) =~= Seq::<(Seq<char>, JsonView)>::empty());
            push_member(&mut payload, "parameterType", parameter);
            push_member(&mut payload, "returnType", result);
            assert(member_views(payload@) =~= seq![
                ("parameterType"@, type_json(**p, encoding)),
                ("returnType"@, type_json(**r, encoding)),
            ]);
            single_member_object("Function", JsonValue::Object(payload))
        },
        Type::Unit(_) => {
            let payload: Vec<(String, JsonValue)> = Vec::new();
            assert(member_views(payload@) =~= Seq::<(Seq<char>, JsonView)>::empty());
            single_member_object("Unit", JsonValue::Object(payload))
        },
    }
}

// ---------------------------------------------------------------------------
// Specifications and definitions
// ---------------------------------------------------------------------------

/// Type parameters, each written as its name.
pub open spec fn names_json(ns: Seq<Name>) -> Seq<JsonView> {
    ns.map_values(|n: Name| name_json(n))
}

/// The members a custom type's first `n` constructors are written as: keyed by constructor
/// name in order, each holding its arguments as `[name, type]` pairs; a name that repeats
/// keeps its first position and takes the last arguments written under it.
pub open spec fn constructor_specs_json(cs: Seq<ConstructorSpecification>, e: TypeEncoding, n: int) -> Seq<
    (Seq<char>, JsonView),
>
    decreases n,
{
    if n <= 0 || n > cs.len() {
        Seq::<(Seq<char>, JsonView)>::empty()
    } else {
        let prev = constructor_specs_json(cs, e, n - 1);
        let k = canonical_in(cs[n - 1].name@, canonical_style());
        let v = JsonView::Array(
            cs[n - 1].args@.map_values(
                |a: ConstructorArgSpec| JsonView::Array(seq![name_json(a.name), type_json(a.arg_type, e)]),
            ),
        );
        match first_member(prev, k) {
            Some(p) => prev.update(p, (k, v)),
            None => prev.push((k, v)),
        }
    }
}

/// What a type specification is written as.
pub open spec fn type_specification_json(s: TypeSpecification, e: TypeEncoding) -> JsonView {
    match s {
        TypeSpecification::TypeAliasSpecification { type_params, type_expr } => tagged(
            "TypeAliasSpecification"@,
            JsonView::Object(
                seq![
                    ("typeParams"@, JsonView::Array(names_json(type_params@))),
                    ("typeExp"@, type_json(type_expr, e)),
                ],
            ),
        ),
        TypeSpecification::OpaqueTypeSpecification { type_params } => tagged(
            "OpaqueTypeSpecification"@,
            JsonView::Object(
                if type_params@.len() == 0 {
                    Seq::<(Seq<char>, JsonView)>::empty()
                } else {
                    seq![("typeParams"@, JsonView::Array(names_json(type_params@)))]
                },
            ),
        ),
        TypeSpecification::CustomTypeSpecification { type_params, constructors } => tagged(
            "CustomTypeSpecification"@,
            JsonView::Object(
                seq![
                    ("typeParams"@, JsonView::Array(names_json(type_params@))),
                    (
                        "constructors"@,
                        JsonView::Object(constructor_specs_json(constructors@, e, constructors@.len() as int)),
                    ),
                ],
            ),
        ),
        TypeSpecification::DerivedTypeSpecification { type_params, base_type, from_base_type, to_base_type } =>
            tagged(
            "DerivedTypeSpecification"@,
            JsonView::Object(
                seq![
                    ("typeParams"@, JsonView::Array(names_json(type_params@))),
                    ("baseType"@, type_json(base_type, e)),
                    ("fromBaseType"@, fqname_json(from_base_type)),
                    ("toBaseType"@, fqname_json(to_base_type)),
                ],
            ),
        ),
    }
}

/// The members a custom type definition's first `n` constructors are written as, the same
/// way as a specification's.
pub open spec fn constructor_defs_json(cs: Seq<ConstructorDefinition>, e: TypeEncoding, n: int) -> Seq<
    (Seq<char>, JsonView),
>
    decreases n,
{
    if n <= 0 || n > cs.len() {
        Seq::<(Seq<char>, JsonView)>::empty()
    } else {
        let prev = constructor_defs_json(cs, e, n - 1);
        let k = canonical_in(cs[n - 1].name@, canonical_style());
        let v = JsonView::Array(
            cs[n - 1].args@.map_values(
                |a: ConstructorArg| JsonView::Array(seq![name_json(a.name), type_json(a.arg_type, e)]),
            ),
        );
        match first_member(prev, k) {
            Some(p) => prev.update(p, (k, v)),
            None => prev.push((k, v)),
        }
    }
}

/// What a hole's reason is written as.
pub open spec fn hole_reason_json(r: HoleReason) -> JsonView {
    match r {
        HoleReason::Draft => tagged("Draft"@, JsonView::Object(Seq::<(Seq<char>, JsonView)>::empty())),
        HoleReason::TypeMismatch { expected, found } => tagged(
            "TypeMismatch"@,
            JsonView::Object(seq![("expected"@, JsonView::Str(expected@)), ("found"@, JsonView::Str(found@))]),
        ),
        HoleReason::DeletedDuringRefactor { tx_id } => tagged(
            "DeletedDuringRefactor"@,
            JsonView::Object(seq![("tx-id"@, JsonView::Str(tx_id@))]),
        ),
        HoleReason::UnresolvedReference { target } => tagged(
            "UnresolvedReference"@,
            JsonView::Object(seq![("target"@, fqname_json(target))]),
        ),
    }
}

/// What a definition's incompleteness is written as: `{"Draft": {}}`, or a hole with its
/// reason.
pub open spec fn incompleteness_json(i: Incompleteness) -> JsonView {
    match i {
        Incompleteness::Draft => tagged("Draft"@, JsonView::Object(Seq::<(Seq<char>, JsonView)>::empty())),
        Incompleteness::Hole(r) => tagged("Hole"@, JsonView::Object(seq![("reason"@, hole_reason_json(r))])),
    }
}

/// What a type definition is written as.
pub open spec fn type_definition_json(d: TypeDefinition, e: TypeEncoding) -> JsonView {
    match d {
        TypeDefinition::TypeAliasDefinition { type_params, type_expr } => tagged(
            "TypeAliasDefinition"@,
            JsonView::Object(
                seq![
                    ("typeParams"@, JsonView::Array(names_json(type_params@))),
                    ("typeExp"@, type_json(type_expr, e)),
                ],
            ),
        ),
        TypeDefinition::CustomTypeDefinition { type_params, constructors } => tagged(
            "CustomTypeDefinition"@,
            JsonView::Object(
                seq![
                    ("typeParams"@, JsonView::Array(names_json(type_params@))),
                    ("access"@, JsonView::Str(access_tag(constructors.access))),
                    (
                        "constructors"@,
                        JsonView::Object(
                            constructor_defs_json(constructors.value@, e, constructors.value@.len() as int),
                        ),
                    ),
                ],
            ),
        ),
        TypeDefinition::IncompleteTypeDefinition { type_params, incompleteness, partial_type_expr } => tagged(
            "IncompleteTypeDefinition"@,
            JsonView::Object(
                seq![
                    ("typeParams"@, JsonView::Array(names_json(type_params@))),
                    ("incompleteness"@, incompleteness_json(incompleteness)),
                ] + match partial_type_expr {
                    Some(t) => seq![("partialTypeExp"@, type_json(t, e))],
                    None => Seq::<(Seq<char>, JsonView)>::empty(),
                },
            ),
        ),
    }
}

/// Type parameters as a JSON array of names.
fn names_value(ns: &Vec<Name>) -> (r: JsonValue)
    ensures
        r@ == JsonView::Array(names_json(ns@)),
{
    let mut out: Vec<JsonValue> = Vec::new();
    let mut i: usize = 0;
    assert(item_views(out@) =~= names_json(ns@).take(0));
    while i < ns.len()
        invariant
            i <= ns@.len(),
            item_views(out@) == names_json(ns@).take(i as int),
        decreases ns.len() - i,
    {
        let x = name_value(&ns[i]);
        proof {
            lemma_item_views_push(out@, x);
            assert(names_json(ns@).take(i as int + 1) =~= names_json(ns@).take(i as int).push(x@));
        }
        out.push(x);
        i = i + 1;
    }
    assert(names_json(ns@).take(i as int) =~= names_json(ns@));
    JsonValue::Array(out)
}

/// Put `v` under `k` in members whose names are distinct: in place where `k` is taken,
/// appended where it is not.
fn put_member(out: &mut Vec<(String, JsonValue)>, k: String, v: JsonValue)
    ensures
        member_views(final(out)@) == match first_member(member_views(old(out)@), k@) {
            Some(p) => member_views(old(out)@).update(p, (k@, v@)),
            None => member_views(old(out)@).push((k@, v@)),
        },
{
    let ghost prev = member_views(out@);
    proof {
        lemma_member_views(out@);
        lemma_first_member(prev, k@);
    }
    match first_member_index(out, k.as_str()) {
        Some(p) => {
            proof {
                lemma_member_views_update(out@, p as int, (k, v));
            }
            out.set(p, (k, v));
        },
        None => {
            proof {
                crate::json::lemma_member_views_push(out@, k, v);
            }
            out.push((k, v));
        },
    }
}

/// A constructor's arguments as `[name, type]` pairs.
fn spec_args_value(args: &Vec<ConstructorArgSpec>, e: TypeEncoding) -> (r: JsonValue)
    ensures
        r@ == JsonView::Array(
            args@.map_values(
                |a: ConstructorArgSpec| JsonView::Array(seq![name_json(a.name), type_json(a.arg_type, e)]),
            ),
        ),
{
    let ghost want = args@.map_values(
        |a: ConstructorArgSpec| JsonView::Array(seq![name_json(a.name), type_json(a.arg_type, e)]),
    );
    let mut out: Vec<JsonValue> = Vec::new();
    let mut i: usize = 0;
    assert(item_views(out@) =~= want.take(0));
    while i < args.len()
        invariant
            i <= args@.len(),
            want == args@.map_values(
                |a: ConstructorArgSpec| JsonView::Array(seq![name_json(a.name), type_json(a.arg_type, e)]),
            ),
            item_views(out@) == want.take(i as int),
        decreases args.len() - i,
    {
        let mut pair: Vec<JsonValue> = Vec::new();
        let n = name_value(&args[i].name);
        let t = serialize_type(&args[i].arg_type, e);
        proof {
            lemma_item_views_push(pair@, n);
        }
        pair.push(n);
        proof {
            lemma_item_views_push(pair@, t);
        }
        pair.push(t);
        assert(item_views(pair@) =~= seq![name_json(args@[i as int].name), type_json(args@[i as int].arg_type, e)]);
        let x = JsonValue::Array(pair);
        proof {
            lemma_item_views_push(out@, x);
            assert(want.take(i as int + 1) =~= want.take(i as int).push(x@));
        }
        out.push(x);
        i = i + 1;
    }
    assert(want.take(i as int) =~= want);
    JsonValue::Array(out)
}

/// A definition constructor's arguments as `[name, type]` pairs.
fn def_args_value(args: &Vec<ConstructorArg>, e: TypeEncoding) -> (r: JsonValue)
    ensures
        r@ == JsonView::Array(
            args@.map_values(
                |a: ConstructorArg| JsonView::Array(seq![name_json(a.name), type_json(a.arg_type, e)]),
            ),
        ),
{
    let ghost want = args@.map_values(
        |a: ConstructorArg| JsonView::Array(seq![name_json(a.name), type_json(a.arg_type, e)]),
    );
    let mut out: Vec<JsonValue> = Vec::new();
    let mut i: usize = 0;
    assert(item_views(out@) =~= want.take(0));
    while i < args.len()
        invariant
            i <= args@.len(),
            want == args@.map_values(
                |a: ConstructorArg| JsonView::Array(seq![name_json(a.name), type_json(a.arg_type, e)]),
            ),
            item_views(out@) == want.take(i as int),
        decreases args.len() - i,
    {
        let mut pair: Vec<JsonValue> = Vec::new();
        let n = name_value(&args[i].name);
        let t = serialize_type(&args[i].arg_type, e);
        proof {
            lemma_item_views_push(pair@, n);
        }
        pair.push(n);
        proof {
            lemma_item_views_push(pair@, t);
        }
        pair.push(t);
        assert(item_views(pair@) =~= seq![name_json(args@[i as int].name), type_json(args@[i as int].arg_type, e)]);
        let x = JsonValue::Array(pair);
        proof {
            lemma_item_views_push(out@, x);
            assert(want.take(i as int + 1) =~= want.take(i as int).push(x@));
        }
        out.push(x);
        i = i + 1;
    }
    assert(want.take(i as int) =~= want);
    JsonValue::Array(out)
}

/// A custom type specification's constructors as members keyed by constructor name.
fn constructor_specs_value(cs: &Vec<ConstructorSpecification>, e: TypeEncoding) -> (r: JsonValue)
    ensures
        r@ == JsonView::Object(constructor_specs_json(cs@, e, cs@.len() as int)),
{
    let mut out: Vec<(String, JsonValue)> = Vec::new();
    let mut i: usize = 0;
    assert(member_views(out@) =~= Seq::<(Seq<char>, JsonView)>::empty());
    while i < cs.len()
        invariant
            i <= cs@.len(),
            member_views(out@) == constructor_specs_json(cs@, e, i as int),
        decreases cs.len() - i,
    {
        let k = cs[i].name.to_canonical_string();
        let v = spec_args_value(&cs[i].args, e);
        put_member(&mut out, k, v);
        i = i + 1;
    }
    JsonValue::Object(out)
}

/// A custom type definition's constructors as members keyed by constructor name.
fn constructor_defs_value(cs: &Vec<ConstructorDefinition>, e: TypeEncoding) -> (r: JsonValue)
    ensures
        r@ == JsonView::Object(constructor_defs_json(cs@, e, cs@.len() as int)),
{
    let mut out: Vec<(String, JsonValue)> = Vec::new();
    let mut i: usize = 0;
    assert(member_views(out@) =~= Seq::<(Seq<char>, JsonView)>::empty());
    while i < cs.len()
        invariant
            i <= cs@.len(),
            member_views(out@) == constructor_defs_json(cs@, e, i as int),
        decreases cs.len() - i,
    {
        let k = cs[i].name.to_canonical_string();
        let v = def_args_value(&cs[i].args, e);
        put_member(&mut out, k, v);
        i = i + 1;
    }
    JsonValue::Object(out)
}

/// An object of members given in order.
fn object_of(members: Vec<(String, JsonValue)>) -> (r: JsonValue)
    ensures
        r@ == JsonView::Object(member_views(members@)),
{
    JsonValue::Object(members)
}

impl HoleReason {
    /// The JSON this reason is written as.
    pub fn serialize(&self) -> (r: JsonValue)
        ensures
            r@ == hole_reason_json(*self),
    {
        let mut payload: Vec<(String, JsonValue)> = Vec::new();
        assert(member_views(payload@) =~= Seq::<(Seq<char>, JsonView)>::empty());
        match self {
            HoleReason::Draft => single_member_object("Draft", object_of(payload)),
            HoleReason::TypeMismatch { expected, found } => {
                push_member(&mut payload, "expected", JsonValue::Str(expected.clone()));
                push_member(&mut payload, "found", JsonValue::Str(found.clone()));
                assert(member_views(payload@) =~= seq![
                    ("expected"@, JsonView::Str(expected@)),
                    ("found"@, JsonView::Str(found@)),
                ]);
                single_member_object("TypeMismatch", object_of(payload))
            },
            HoleReason::DeletedDuringRefactor { tx_id } => {
                push_member(&mut payload, "tx-id", JsonValue::Str(tx_id.clone()));
                assert(member_views(payload@) =~= seq![("tx-id"@, JsonView::Str(tx_id@))]);
                single_member_object("DeletedDuringRefactor", object_of(payload))
            },
            HoleReason::UnresolvedReference { target } => {
                push_member(&mut payload, "target", fqname_value(target));
                assert(member_views(payload@) =~= seq![("target"@, fqname_json(*target))]);
                single_member_object("UnresolvedReference", object_of(payload))
            },
        }
    }
}

impl Incompleteness {
    /// The JSON this incompleteness is written as.
    pub fn serialize(&self) -> (r: JsonValue)
        ensures
            r@ == incompleteness_json(*self),
    {
        match self {
            Incompleteness::Draft => {
                let payload: Vec<(String, JsonValue)> = Vec::new();
                assert(member_views(payload@) =~= Seq::<(Seq<char>, JsonView)>::empty());
                single_member_object("Draft", object_of(payload))
            },
            Incompleteness::Hole(reason) => {
                let payload = single_member_object("reason", reason.serialize());
                single_member_object("Hole", payload)
            },
        }
    }
}

impl TypeSpecification {
    /// The JSON this specification is written as, its types in `encoding`.
    pub fn serialize(&self, encoding: TypeEncoding) -> (r: JsonValue)
        ensures
            r@ == type_specification_json(*self, encoding),
    {
        let mut payload: Vec<(String, JsonValue)> = Vec::new();
        assert(member_views(payload@) =~= Seq::<(Seq<char>, JsonView)>::empty());
        match self {
            TypeSpecification::TypeAliasSpecification { type_params, type_expr } => {
                push_member(&mut payload, "typeParams", names_value(type_params));
                push_member(&mut payload, "typeExp", serialize_type(type_expr, encoding));
                assert(member_views(payload@) =~= seq![
                    ("typeParams"@, JsonView::Array(names_json(type_params@))),
                    ("typeExp"@, type_json(*type_expr, encoding)),
                ]);
                single_member_object("TypeAliasSpecification", object_of(payload))
            },
            TypeSpecification::OpaqueTypeSpecification { type_params } => {
                if type_params.len() > 0 {
                    push_member(&mut payload, "typeParams", names_value(type_params));
                    assert(member_views(payload@) =~= seq![
                        ("typeParams"@, JsonView::Array(names_json(type_params@))),
                    ]);
                }
                single_member_object("OpaqueTypeSpecification", object_of(payload))
            },
            TypeSpecification::CustomTypeSpecification { type_params, constructors } => {
                push_member(&mut payload, "typeParams", names_value(type_params));
                push_member(&mut payload, "constructors", constructor_specs_value(constructors, encoding));
                assert(member_views(payload@) =~= seq![
                    ("typeParams"@, JsonView::Array(names_json(type_params@))),
                    (
                        "constructors"@,
                        JsonView::Object(constructor_specs_json(constructors@, encoding, constructors@.len() as int)),
                    ),
                ]);
                single_member_object("CustomTypeSpecification", object_of(payload))
            },
            TypeSpecification::DerivedTypeSpecification { type_params, base_type, from_base_type, to_base_type } => {
                push_member(&mut payload, "typeParams", names_value(type_params));
                push_member(&mut payload, "baseType", serialize_type(base_type, encoding));
                push_member(&mut payload, "fromBaseType", fqname_value(from_base_type));
                push_member(&mut payload, "toBaseType", fqname_value(to_base_type));
                assert(member_views(payload@) =~= seq![
                    ("typeParams"@, JsonView::Array(names_json(type_params@))),
                    ("baseType"@, type_json(*base_type, encoding)),
                    ("fromBaseType"@, fqname_json(*from_base_type)),
                    ("toBaseType"@, fqname_json(*to_base_type)),
                ]);
                single_member_object("DerivedTypeSpecification", object_of(payload))
            },
        }
    }
}

impl TypeDefinition {
    /// The JSON this definition is written as, its types in `encoding`.
    pub fn serialize(&self, encoding: TypeEncoding) -> (r: JsonValue)
        ensures
            r@ == type_definition_json(*self, encoding),
    {
        let mut payload: Vec<(String, JsonValue)> = Vec::new();
        assert(member_views(payload@) =~= Seq::<(Seq<char>, JsonView)>::empty());
        match self {
            TypeDefinition::TypeAliasDefinition { type_params, type_expr } => {
                push_member(&mut payload, "typeParams", names_value(type_params));
                push_member(&mut payload, "typeExp", serialize_type(type_expr, encoding));
                assert(member_views(payload@) =~= seq![
                    ("typeParams"@, JsonView::Array(names_json(type_params@))),
                    ("typeExp"@, type_json(*type_expr, encoding)),
                ]);
                single_member_object("TypeAliasDefinition", object_of(payload))
            },
            TypeDefinition::CustomTypeDefinition { type_params, constructors } => {
                push_member(&mut payload, "typeParams", names_value(type_params));
                push_member(&mut payload, "access", JsonValue::Str(constructors.access.tag().to_string()));
                push_member(&mut payload, "constructors", constructor_defs_value(&constructors.value, encoding));
                assert(member_views(payload@) =~= seq![
                    ("typeParams"@, JsonView::Array(names_json(type_params@))),
                    ("access"@, JsonView::Str(access_tag(constructors.access))),
                    (
                        "constructors"@,
                        JsonView::Object(
                            constructor_defs_json(constructors.value@, encoding, constructors.value@.len() as int),
                        ),
                    ),
                ]);
                single_member_object("CustomTypeDefinition", object_of(payload))
            },
            TypeDefinition::IncompleteTypeDefinition { type_params, incompleteness, partial_type_expr } => {
                push_member(&mut payload, "typeParams", names_value(type_params));
                push_member(&mut payload, "incompleteness", incompleteness.serialize());
                let ghost before = member_views(payload@);
                match partial_type_expr {
                    Some(t) => {
                        push_member(&mut payload, "partialTypeExp", serialize_type(t, encoding));
                    },
                    None => {},
                }
                assert(member_views(payload@) =~= seq![
                    ("typeParams"@, JsonView::Array(names_json(type_params@))),
                    ("incompleteness"@, incompleteness_json(*incompleteness)),
                ] + match *partial_type_expr {
                    Some(t) => seq![("partialTypeExp"@, type_json(t, encoding))],
                    None => Seq::<(Seq<char>, JsonView)>::empty(),
                });
                single_member_object("IncompleteTypeDefinition", object_of(payload))
            },
        }
    }
}

// ---------------------------------------------------------------------------
// Laws of the encoding
// ---------------------------------------------------------------------------

/// The tag a type expression's wrapper carries.
pub open spec fn type_tag(t: Type) -> Seq<char> {
    match t {
        Type::Variable(_, _) => "Variable"@,
        Type::Reference(_, _, _) => "Reference"@,
        Type::Tuple(_, _) => "Tuple"@,
        Type::Record(_, _) => "Record"@,
        Type::ExtensibleRecord(_, _, _) => "ExtensibleRecord"@,
        Type::Function(_, _, _) => "Function"@,
        Type::Unit(_) => "Unit"@,
    }
}

/// Whether a wrapper's payload is an object that opens with an `attributes` member.
pub open spec fn opens_with_attributes(w: JsonView) -> bool {
    &&& w is Object
    &&& w->Object_0.len() == 1
    &&& w->Object_0[0].1 is Object
    &&& w->Object_0[0].1->Object_0.len() > 0
    &&& w->Object_0[0].1->Object_0[0].0 == "attributes"@
}

/// A payload that does not itself open with `attributes` opens with it once the node's
/// attributes are put first exactly when they carry something.
proof fn lemma_payload_head(a: TypeAttributes, rest: Seq<(Seq<char>, JsonView)>)
    requires
        rest.len() > 0 ==> rest[0].0.len() != 10,
    ensures
        ((attributes_members(a) + rest).len() > 0 && (attributes_members(a) + rest)[0].0 == "attributes"@)
            <==> !type_attributes_plain(a),
{
    reveal_strlit("attributes");
    if type_attributes_plain(a) {
        assert(attributes_members(a) + rest =~= rest);
    } else {
        assert((attributes_members(a) + rest)[0] == attributes_members(a)[0]);
    }
}

/// Written expanded, a type expression is a single-member wrapper under its own tag, whose
/// payload opens with `attributes` exactly when the node's attributes carry something: empty
/// attributes are never written.
pub proof fn lemma_expanded_wrapper(t: Type, e: TypeEncoding)
    ensures
        expanded_type_json(t, e) is Object,
        expanded_type_json(t, e)->Object_0.len() == 1,
        expanded_type_json(t, e)->Object_0[0].0 == type_tag(t),
        opens_with_attributes(expanded_type_json(t, e)) <==> !type_attributes_plain(attributes_of(t)),
{
    let a = attributes_of(t);
    match t {
        Type::Variable(_, n) => {
            assert("name"@.len() == 4) by {
                reveal_strlit("name");
            }
            lemma_payload_head(a, seq![("name"@, name_json(n))]);
        },
        Type::Reference(_, f, args) => {
            assert("fqname"@.len() == 6) by {
                reveal_strlit("fqname");
            }
            let rest = if args@.len() == 0 {
                Seq::<(Seq<char>, JsonView)>::empty()
            } else {
                seq![("args"@, JsonView::Array(types_json(args@, e)))]
            };
            let tail = seq![("fqname"@, fqname_json(f))] + rest;
            assert(attributes_members(a) + seq![("fqname"@, fqname_json(f))] + rest =~= attributes_members(a) + tail);
            lemma_payload_head(a, tail);
        },
        Type::Tuple(_, els) => {
            assert("elements"@.len() == 8) by {
                reveal_strlit("elements");
            }
            lemma_payload_head(a, seq![("elements"@, JsonView::Array(types_json(els@, e)))]);
        },
        Type::Record(_, fs) => {
            assert("fields"@.len() == 6) by {
                reveal_strlit("fields");
            }
            lemma_payload_head(a, seq![("fields"@, JsonView::Object(fields_json(fs@, e, fs@.len() as int)))]);
        },
        Type::ExtensibleRecord(_, v, fs) => {
            assert("variable"@.len() == 8) by {
                reveal_strlit("variable");
            }
            lemma_payload_head(
                a,
                seq![
                    ("variable"@, name_json(v)),
                    ("fields"@, JsonView::Object(fields_json(fs@, e, fs@.len() as int))),
                ],
            );
        },
        Type::Function(_, p, r) => {
            assert("parameterType"@.len() == 13) by {
                reveal_strlit("parameterType");
            }
            lemma_payload_head(a, seq![("parameterType"@, type_json(*p, e)), ("returnType"@, type_json(*r, e))]);
        },
        Type::Unit(_) => {
            lemma_payload_head(a, Seq::<(Seq<char>, JsonView)>::empty());
            assert(attributes_members(a) + Seq::<(Seq<char>, JsonView)>::empty() =~= attributes_members(a));
        },
    }
}

// ---------------------------------------------------------------------------
// Patterns
// ---------------------------------------------------------------------------

/// What value attributes are written as: the source location, the inferred type, the
/// extensions, then the metadata scope, each only when present.
pub open spec fn value_attributes_json(a: ValueAttributes, e: TypeEncoding) -> JsonView {
    JsonView::Object(
        (match a.source {
            Some(s) => seq![("source"@, s@)],
            None => Seq::<(Seq<char>, JsonView)>::empty(),
        }) + (match a.inferred_type {
            Some(t) => seq![("inferredType"@, type_json(*t, e))],
            None => Seq::<(Seq<char>, JsonView)>::empty(),
        }) + object_member("extensions"@, a.extensions@) + scope_json_members(a.metadata),
    )
}

/// The `attributes` member a value-level payload opens with, or nothing when they carry
/// nothing.
pub open spec fn value_attributes_members(a: ValueAttributes, e: TypeEncoding) -> Seq<(Seq<char>, JsonView)> {
    if value_attributes_plain(a) {
        Seq::<(Seq<char>, JsonView)>::empty()
    } else {
        seq![("attributes"@, value_attributes_json(a, e))]
    }
}

/// What a pattern is written as: a tuple is an array of patterns and a literal pattern its
/// literal when the node carries no attributes; otherwise, and for every other pattern, the
/// payload is an object that opens with any attributes.
pub open spec fn pattern_json(p: Pattern, e: TypeEncoding) -> JsonView
    decreases p, 1int,
{
    match p {
        Pattern::WildcardPattern(a) => tagged("WildcardPattern"@, JsonView::Object(value_attributes_members(a, e))),
        Pattern::EmptyListPattern(a) => tagged("EmptyListPattern"@, JsonView::Object(value_attributes_members(a, e))),
        Pattern::UnitPattern(a) => tagged("UnitPattern"@, JsonView::Object(value_attributes_members(a, e))),
        Pattern::AsPattern(a, q, n) => tagged(
            "AsPattern"@,
            JsonView::Object(
                value_attributes_members(a, e) + seq![("pattern"@, pattern_json(*q, e)), ("name"@, name_json(n))],
            ),
        ),
        Pattern::TuplePattern(a, ps) => if value_attributes_plain(a) {
            tagged("TuplePattern"@, JsonView::Array(patterns_json(ps@, e)))
        } else {
            tagged(
                "TuplePattern"@,
                JsonView::Object(value_attributes_members(a, e) + seq![("patterns"@, JsonView::Array(patterns_json(ps@, e)))]),
            )
        },
        Pattern::ConstructorPattern(a, f, ps) => tagged(
            "ConstructorPattern"@,
            JsonView::Object(
                value_attributes_members(a, e) + seq![
                    ("fqname"@, fqname_json(f)),
                    ("patterns"@, JsonView::Array(patterns_json(ps@, e))),
                ],
            ),
        ),
        Pattern::HeadTailPattern(a, h, t) => tagged(
            "HeadTailPattern"@,
            JsonView::Object(
                value_attributes_members(a, e) + seq![("head"@, pattern_json(*h, e)), ("tail"@, pattern_json(*t, e))],
            ),
        ),
        Pattern::LiteralPattern(a, l) => if value_attributes_plain(a) {
            tagged("LiteralPattern"@, literal_json(l))
        } else {
            tagged("LiteralPattern"@, JsonView::Object(value_attributes_members(a, e) + seq![("literal"@, literal_json(l))]))
        },
    }
}

/// A list of patterns, each written in turn.
pub open spec fn patterns_json(s: Seq<Pattern>, e: TypeEncoding) -> Seq<JsonView>
    decreases s, 0int,
{
    if s.len() == 0 {
        Seq::<JsonView>::empty()
    } else {
        patterns_json(s.drop_last(), e).push(pattern_json(s.last(), e))
    }
}

/// The JSON value attributes are written as.
pub fn value_attributes_to_json(a: &ValueAttributes, encoding: TypeEncoding) -> (r: JsonValue)
    ensures
        r@ == value_attributes_json(*a, encoding),
{
    let mut out: Vec<(String, JsonValue)> = Vec::new();
    assert(member_views(out@) =~= Seq::<(Seq<char>, JsonView)>::empty());
    match &a.source {
        Some(s) => {
            push_member(&mut out, "source", s.duplicate());
        },
        None => {},
    }
    let ghost first = member_views(out@);
    assert(first =~= match a.source {
        Some(s) => seq![("source"@, s@)],
        None => Seq::<(Seq<char>, JsonView)>::empty(),
    });
    match &a.inferred_type {
        Some(t) => {
            push_member(&mut out, "inferredType", serialize_type(t, encoding));
        },
        None => {},
    }
    let ghost second = member_views(out@);
    assert(second =~= first + match a.inferred_type {
        Some(t) => seq![("inferredType"@, type_json(*t, encoding))],
        None => Seq::<(Seq<char>, JsonView)>::empty(),
    });
    push_object_member(&mut out, "extensions", &a.extensions);
    push_scope_members(&a.metadata, &mut out);
    assert(member_views(out@) =~= second + object_member("extensions"@, a.extensions@) + scope_json_members(a.metadata));
    JsonValue::Object(out)
}

/// Start a value-level payload with the `attributes` member when they carry anything.
fn value_attributes_payload(a: &ValueAttributes, encoding: TypeEncoding) -> (r: Vec<(String, JsonValue)>)
    ensures
        member_views(r@) == value_attributes_members(*a, encoding),
{
    let mut out: Vec<(String, JsonValue)> = Vec::new();
    assert(member_views(out@) =~= Seq::<(Seq<char>, JsonView)>::empty());
    if !a.is_empty() {
        push_member(&mut out, "attributes", value_attributes_to_json(a, encoding));
        assert(member_views(out@) =~= value_attributes_members(*a, encoding));
    }
    out
}

/// Write a list of patterns.
fn serialize_patterns(ps: &Vec<Pattern>, encoding: TypeEncoding) -> (r: Vec<JsonValue>)
    ensures
        item_views(r@) == patterns_json(ps@, encoding),
    decreases ps, 0int,
{
    let mut out: Vec<JsonValue> = Vec::new();
    let mut i: usize = 0;
    assert(ps@.take(0) =~= Seq::<Pattern>::empty());
    assert(item_views(out@) =~= Seq::<JsonView>::empty());
    while i < ps.len()
        invariant
            i <= ps@.len(),
            item_views(out@) == patterns_json(ps@.take(i as int), encoding),
        decreases ps.len() - i,
    {
        proof {
            assert(decreases_to!(*ps => ps@));
            assert(decreases_to!(ps@ => ps@[i as int]));
        }
        let x = serialize_pattern(&ps[i], encoding);
        proof {
            lemma_item_views_push(out@, x);
            assert(ps@.take(i as int + 1).drop_last() =~= ps@.take(i as int));
            assert(ps@.take(i as int + 1).last() == ps@[i as int]);
        }
        out.push(x);
        i = i + 1;
    }
    assert(ps@.take(i as int) =~= ps@);
    out
}

/// Write a pattern in its canonical v4 spelling.
pub fn serialize_pattern(pat: &Pattern, encoding: TypeEncoding) -> (r: JsonValue)
    ensures
        r@ == pattern_json(*pat, encoding),
    decreases pat, 1int,
{
    match pat {
        Pattern::WildcardPattern(a) => single_member_object("WildcardPattern", JsonValue::Object(value_attributes_payload(a, encoding))),
        Pattern::EmptyListPattern(a) => single_member_object("EmptyListPattern", JsonValue::Object(value_attributes_payload(a, encoding))),
        Pattern::UnitPattern(a) => single_member_object("UnitPattern", JsonValue::Object(value_attributes_payload(a, encoding))),
        Pattern::AsPattern(a, q, n) => {
            let mut payload = value_attributes_payload(a, encoding);
            let ghost before = member_views(payload@);
            push_member(&mut payload, "pattern", serialize_pattern(q, encoding));
            push_member(&mut payload, "name", name_value(n));
            assert(member_views(payload@) =~= before + seq![("pattern"@, pattern_json(**q, encoding)), ("name"@, name_json(*n))]);
            single_member_object("AsPattern", JsonValue::Object(payload))
        },
        Pattern::TuplePattern(a, ps) => {
            proof {
                assert(decreases_to!(*pat => (*pat)->TuplePattern_1));
            }
            let items = serialize_patterns(ps, encoding);
            if a.is_empty() {
                single_member_object("TuplePattern", JsonValue::Array(items))
            } else {
                let mut payload = value_attributes_payload(a, encoding);
                let ghost before = member_views(payload@);
                push_member(&mut payload, "patterns", JsonValue::Array(items));
                assert(member_views(payload@) =~= before + seq![("patterns"@, JsonView::Array(patterns_json(ps@, encoding)))]);
                single_member_object("TuplePattern", JsonValue::Object(payload))
            }
        },
        Pattern::ConstructorPattern(a, f, ps) => {
            proof {
                assert(decreases_to!(*pat => (*pat)->ConstructorPattern_2));
            }
            let mut payload = value_attributes_payload(a, encoding);
            let ghost before = member_views(payload@);
            push_member(&mut payload, "fqname", fqname_value(f));
            let items = serialize_patterns(ps, encoding);
            push_member(&mut payload, "patterns", JsonValue::Array(items));
            assert(member_views(payload@) =~= before + seq![
                ("fqname"@, fqname_json(*f)),
                ("patterns"@, JsonView::Array(patterns_json(ps@, encoding))),
            ]);
            single_member_object("ConstructorPattern", JsonValue::Object(payload))
        },
        Pattern::HeadTailPattern(a, h, t) => {
            let mut payload = value_attributes_payload(a, encoding);
            let ghost before = member_views(payload@);
            push_member(&mut payload, "head", serialize_pattern(h, encoding));
            push_member(&mut payload, "tail", serialize_pattern(t, encoding));
            assert(member_views(payload@) =~= before + seq![("head"@, pattern_json(**h, encoding)), ("tail"@, pattern_json(**t, encoding))]);
            single_member_object("HeadTailPattern", JsonValue::Object(payload))
        },
        Pattern::LiteralPattern(a, l) => {
            if a.is_empty() {
                single_member_object("LiteralPattern", serialize_literal(l))
            } else {
                let mut payload = value_attributes_payload(a, encoding);
                let ghost before = member_views(payload@);
                push_member(&mut payload, "literal", serialize_literal(l));
                assert(member_views(payload@) =~= before + seq![("literal"@, literal_json(*l))]);
                single_member_object("LiteralPattern", JsonValue::Object(payload))
            }
        },
    }
}

// ---------------------------------------------------------------------------
// Values
// ---------------------------------------------------------------------------

/// The first index of a member keyed `k` among `s`.
pub open spec fn first_key(s: Seq<(Seq<char>, int)>, k: Seq<char>) -> Option<int>
    decreases s.len(),
{
    if s.len() == 0 {
        None
    } else if s.last().0 == k && first_key(s.drop_last(), k) is None {
        Some(s.len() - 1)
    } else {
        first_key(s.drop_last(), k)
    }
}

/// The map the first `n` of `keys` make: each key at its first position, holding the index
/// of the last entry under it.
pub open spec fn keyed_last(keys: Seq<Seq<char>>, n: int) -> Seq<(Seq<char>, int)>
    decreases n,
{
    if n <= 0 || n > keys.len() {
        Seq::<(Seq<char>, int)>::empty()
    } else {
        let prev = keyed_last(keys, n - 1);
        let k = keys[n - 1];
        match first_key(prev, k) {
            Some(p) => prev.update(p, (k, n - 1)),
            None => prev.push((k, n - 1)),
        }
    }
}

pub open spec fn record_keys(fs: Seq<RecordFieldEntry>) -> Seq<Seq<char>> {
    fs.map_values(|f: RecordFieldEntry| canonical_in(f.0@, canonical_style()))
}

pub open spec fn binding_keys(bs: Seq<LetBinding>) -> Seq<Seq<char>> {
    bs.map_values(|b: LetBinding| canonical_in(b.0@, canonical_style()))
}

/// One member, or the error that writing its value stopped on.
pub open spec fn join1(k1: Seq<char>, r1: Result<JsonView, Seq<char>>) -> Result<Seq<(Seq<char>, JsonView)>, Seq<char>> {
    match r1 {
        Err(m) => Err(m),
        Ok(v1) => Ok(seq![(k1, v1)]),
    }
}

/// Members written in order; the first error stops the write.
pub open spec fn join2(
    k1: Seq<char>,
    r1: Result<JsonView, Seq<char>>,
    k2: Seq<char>,
    r2: Result<JsonView, Seq<char>>,
) -> Result<Seq<(Seq<char>, JsonView)>, Seq<char>> {
    match r1 {
        Err(m) => Err(m),
        Ok(v1) => match r2 {
            Err(m) => Err(m),
            Ok(v2) => Ok(seq![(k1, v1), (k2, v2)]),
        },
    }
}

pub open spec fn join3(
    k1: Seq<char>,
    r1: Result<JsonView, Seq<char>>,
    k2: Seq<char>,
    r2: Result<JsonView, Seq<char>>,
    k3: Seq<char>,
    r3: Result<JsonView, Seq<char>>,
) -> Result<Seq<(Seq<char>, JsonView)>, Seq<char>> {
    match join2(k1, r1, k2, r2) {
        Err(m) => Err(m),
        Ok(ms) => match r3 {
            Err(m) => Err(m),
            Ok(v3) => Ok(ms.push((k3, v3))),
        },
    }
}

/// A value-level node written as `{tag: {attributes?, members...}}`.
pub open spec fn node_json(tag: Seq<char>, a: ValueAttributes, e: TypeEncoding, r: Result<Seq<(Seq<char>, JsonView)>, Seq<char>>) -> Result<
    JsonView,
    Seq<char>,
> {
    match r {
        Err(m) => Err(m),
        Ok(ms) => Ok(tagged(tag, JsonView::Object(value_attributes_members(a, e) + ms))),
    }
}

/// What a native operation's category is written as.
pub open spec fn native_hint_json(h: NativeHint) -> JsonView {
    match h {
        NativeHint::Arithmetic => tagged("Arithmetic"@, JsonView::Object(Seq::<(Seq<char>, JsonView)>::empty())),
        NativeHint::Comparison => tagged("Comparison"@, JsonView::Object(Seq::<(Seq<char>, JsonView)>::empty())),
        NativeHint::StringOp => tagged("StringOp"@, JsonView::Object(Seq::<(Seq<char>, JsonView)>::empty())),
        NativeHint::CollectionOp => tagged("CollectionOp"@, JsonView::Object(Seq::<(Seq<char>, JsonView)>::empty())),
        NativeHint::PlatformSpecific { platform } => tagged(
            "PlatformSpecific"@,
            JsonView::Object(seq![("platform"@, JsonView::Str(platform@))]),
        ),
    }
}

/// What what is known of a native operation is written as.
pub open spec fn native_info_json(i: NativeInfo) -> JsonView {
    JsonView::Object(
        seq![
            ("hint"@, native_hint_json(i.hint)),
            ("description"@, match i.description {
                Some(d) => JsonView::Str(d@),
                None => JsonView::Null,
            }),
        ],
    )
}

/// A definition's inputs, keyed by name: a name that repeats keeps its first position and
/// takes the last type given under it.
pub open spec fn inputs_json(ins: Seq<(String, InputTypeEntry)>, e: TypeEncoding, n: int) -> Seq<(Seq<char>, JsonView)>
    decreases n,
{
    if n <= 0 || n > ins.len() {
        Seq::<(Seq<char>, JsonView)>::empty()
    } else {
        let prev = inputs_json(ins, e, n - 1);
        let k = ins[n - 1].0@;
        let v = type_json(ins[n - 1].1.input_type, e);
        match first_member(prev, k) {
            Some(p) => prev.update(p, (k, v)),
            None => prev.push((k, v)),
        }
    }
}

/// What a value expression is written as: a node with nothing else to say is written in
/// its shortest form (a variable its name, a reference or constructor its fully qualified
/// name, a tuple or list its items, a literal its literal); otherwise an object that opens
/// with any attributes. Writing stops on a definition that has no output type where its
/// body needs one, and on a native or external value, which has no v4 spelling.
pub open spec fn value_json(v: Value, e: TypeEncoding) -> Result<JsonView, Seq<char>>
    decreases v, 2int,
{
    let plain = value_attributes_plain(value_attributes(v));
    match v {
        Value::Literal(a, l) => if plain {
            Ok(tagged("Literal"@, literal_json(l)))
        } else {
            node_json("Literal"@, a, e, Ok(seq![("literal"@, literal_json(l))]))
        },
        Value::Constructor(a, f) => if plain {
            Ok(tagged("Constructor"@, fqname_json(f)))
        } else {
            node_json("Constructor"@, a, e, Ok(seq![("fqname"@, fqname_json(f))]))
        },
        Value::Reference(a, f) => if plain {
            Ok(tagged("Reference"@, fqname_json(f)))
        } else {
            node_json("Reference"@, a, e, Ok(seq![("fqname"@, fqname_json(f))]))
        },
        Value::Variable(a, n) => if plain {
            Ok(tagged("Variable"@, name_json(n)))
        } else {
            node_json("Variable"@, a, e, Ok(seq![("name"@, name_json(n))]))
        },
        Value::FieldFunction(a, n) => if plain {
            Ok(tagged("FieldFunction"@, name_json(n)))
        } else {
            node_json("FieldFunction"@, a, e, Ok(seq![("name"@, name_json(n))]))
        },
        Value::Tuple(a, els) => match values_json(els@, e) {
            Err(m) => Err(m),
            Ok(xs) => if plain {
                Ok(tagged("Tuple"@, JsonView::Array(xs)))
            } else {
                node_json("Tuple"@, a, e, Ok(seq![("elements"@, JsonView::Array(xs))]))
            },
        },
        Value::List(a, items) => match values_json(items@, e) {
            Err(m) => Err(m),
            Ok(xs) => if plain {
                Ok(tagged("List"@, JsonView::Array(xs)))
            } else {
                node_json("List"@, a, e, Ok(seq![("items"@, JsonView::Array(xs))]))
            },
        },
        Value::Record(a, fs) => node_json(
            "Record"@,
            a,
            e,
            join1("fields"@, record_json(fs@, keyed_last(record_keys(fs@), fs@.len() as int), e)),
        ),
        Value::Field(a, t, n) => node_json("Field"@, a, e, join2("target"@, value_json(*t, e), "name"@, Ok(name_json(n)))),
        Value::Apply(a, f, x) => node_json(
            "Apply"@,
            a,
            e,
            join2("function"@, value_json(*f, e), "argument"@, value_json(*x, e)),
        ),
        Value::Lambda(a, p, b) => node_json("Lambda"@, a, e, join2("pattern"@, Ok(pattern_json(p, e)), "body"@, value_json(*b, e))),
        Value::LetDefinition(a, n, d, b) => node_json(
            "LetDefinition"@,
            a,
            e,
            join3("name"@, Ok(name_json(n)), "definition"@, definition_json(*d, e), "in"@, value_json(*b, e)),
        ),
        Value::LetRecursion(a, bs, b) => node_json(
            "LetRecursion"@,
            a,
            e,
            join2(
                "definitions"@,
                bindings_json(bs@, keyed_last(binding_keys(bs@), bs@.len() as int), e),
                "in"@,
                value_json(*b, e),
            ),
        ),
        Value::Destructure(a, p, x, b) => node_json(
            "Destructure"@,
            a,
            e,
            join3("pattern"@, Ok(pattern_json(p, e)), "value"@, value_json(*x, e), "in"@, value_json(*b, e)),
        ),
        Value::IfThenElse(a, c, t, f) => node_json(
            "IfThenElse"@,
            a,
            e,
            join3("condition"@, value_json(*c, e), "then"@, value_json(*t, e), "else"@, value_json(*f, e)),
        ),
        Value::PatternMatch(a, x, cs) => node_json(
            "PatternMatch"@,
            a,
            e,
            join2("value"@, value_json(*x, e), "cases"@, match cases_json(cs@, e) {
                Err(m) => Err(m),
                Ok(ys) => Ok(JsonView::Array(ys)),
            }),
        ),
        Value::UpdateRecord(a, t, fs) => node_json(
            "UpdateRecord"@,
            a,
            e,
            join2("target"@, value_json(*t, e), "fields"@, record_json(fs@, keyed_last(record_keys(fs@), fs@.len() as int), e)),
        ),
        Value::Unit(a) => node_json("Unit"@, a, e, Ok(Seq::<(Seq<char>, JsonView)>::empty())),
        Value::Hole(a, r, t) => node_json(
            "Hole"@,
            a,
            e,
            Ok(
                seq![("reason"@, hole_reason_json(r))] + match t {
                    Some(t) => seq![("expectedType"@, type_json(*t, e))],
                    None => Seq::<(Seq<char>, JsonView)>::empty(),
                },
            ),
        ),
        Value::Native(..) => Err("a native value has no v4 spelling"@),
        Value::External(..) => Err("an external value has no v4 spelling"@),
    }
}

/// A list of values, each written in turn; the first error stops the write.
pub open spec fn values_json(s: Seq<Value>, e: TypeEncoding) -> Result<Seq<JsonView>, Seq<char>>
    decreases s, 0int,
{
    if s.len() == 0 {
        Ok(Seq::<JsonView>::empty())
    } else {
        match values_json(s.drop_last(), e) {
            Err(m) => Err(m),
            Ok(xs) => match value_json(s.last(), e) {
                Err(m) => Err(m),
                Ok(x) => Ok(xs.push(x)),
            },
        }
    }
}

/// The object of record fields `idx` picks from `fs`, in order.
pub open spec fn record_json(fs: Seq<RecordFieldEntry>, idx: Seq<(Seq<char>, int)>, e: TypeEncoding) -> Result<
    JsonView,
    Seq<char>,
>
    decreases fs, idx.len() + 1,
{
    match record_members(fs, idx, idx.len() as int, e) {
        Err(m) => Err(m),
        Ok(ms) => Ok(JsonView::Object(ms)),
    }
}

pub open spec fn record_members(fs: Seq<RecordFieldEntry>, idx: Seq<(Seq<char>, int)>, j: int, e: TypeEncoding) -> Result<
    Seq<(Seq<char>, JsonView)>,
    Seq<char>,
>
    decreases fs, j,
{
    if j <= 0 || j > idx.len() {
        Ok(Seq::<(Seq<char>, JsonView)>::empty())
    } else {
        match record_members(fs, idx, j - 1, e) {
            Err(m) => Err(m),
            Ok(ms) => {
                let k = idx[j - 1].1;
                if 0 <= k < fs.len() {
                    match value_json(fs[k].1, e) {
                        Err(m) => Err(m),
                        Ok(x) => Ok(ms.push((idx[j - 1].0, x))),
                    }
                } else {
                    Ok(ms)
                }
            },
        }
    }
}

/// The object of let bindings `idx` picks from `bs`, in order.
pub open spec fn bindings_json(bs: Seq<LetBinding>, idx: Seq<(Seq<char>, int)>, e: TypeEncoding) -> Result<
    JsonView,
    Seq<char>,
>
    decreases bs, idx.len() + 1,
{
    match binding_members(bs, idx, idx.len() as int, e) {
        Err(m) => Err(m),
        Ok(ms) => Ok(JsonView::Object(ms)),
    }
}

pub open spec fn binding_members(bs: Seq<LetBinding>, idx: Seq<(Seq<char>, int)>, j: int, e: TypeEncoding) -> Result<
    Seq<(Seq<char>, JsonView)>,
    Seq<char>,
>
    decreases bs, j,
{
    if j <= 0 || j > idx.len() {
        Ok(Seq::<(Seq<char>, JsonView)>::empty())
    } else {
        match binding_members(bs, idx, j - 1, e) {
            Err(m) => Err(m),
            Ok(ms) => {
                let k = idx[j - 1].1;
                if 0 <= k < bs.len() {
                    match definition_json(bs[k].1, e) {
                        Err(m) => Err(m),
                        Ok(x) => Ok(ms.push((idx[j - 1].0, x))),
                    }
                } else {
                    Ok(ms)
                }
            },
        }
    }
}

/// Pattern match cases, each an object `{pattern, body}`.
pub open spec fn cases_json(s: Seq<PatternCase>, e: TypeEncoding) -> Result<Seq<JsonView>, Seq<char>>
    decreases s, 0int,
{
    if s.len() == 0 {
        Ok(Seq::<JsonView>::empty())
    } else {
        match cases_json(s.drop_last(), e) {
            Err(m) => Err(m),
            Ok(xs) => match value_json(s.last().1, e) {
                Err(m) => Err(m),
                Ok(b) => Ok(xs.push(JsonView::Object(seq![("pattern"@, pattern_json(s.last().0, e)), ("body"@, b)]))),
            },
        }
    }
}

/// The `outputType` member, when there is an output type.
pub open spec fn output_members(o: Option<Type>, e: TypeEncoding) -> Seq<(Seq<char>, JsonView)> {
    match o {
        Some(t) => seq![("outputType"@, type_json(t, e))],
        None => Seq::<(Seq<char>, JsonView)>::empty(),
    }
}

/// What a value definition is written as: its body's tag over its inputs, its output type,
/// and what the body holds. An expression, native or external body needs an output type.
pub open spec fn definition_json(d: ValueDefinition, e: TypeEncoding) -> Result<JsonView, Seq<char>>
    decreases d, 2int,
{
    let inputs = ("inputTypes"@, JsonView::Object(inputs_json(d.input_types@, e, d.input_types@.len() as int)));
    match d.body {
        ValueBody::Expression(b) => match d.output_type {
            None => Err("ExpressionBody requires outputType"@),
            Some(t) => match value_json(b, e) {
                Err(m) => Err(m),
                Ok(x) => Ok(tagged("ExpressionBody"@, JsonView::Object(seq![inputs, ("outputType"@, type_json(t, e)), ("body"@, x)]))),
            },
        },
        ValueBody::Native(i) => match d.output_type {
            None => Err("NativeBody requires outputType"@),
            Some(t) => Ok(
                tagged(
                    "NativeBody"@,
                    JsonView::Object(seq![inputs, ("outputType"@, type_json(t, e)), ("nativeInfo"@, native_info_json(i))]),
                ),
            ),
        },
        ValueBody::External { external_name, target_platform } => match d.output_type {
            None => Err("ExternalBody requires outputType"@),
            Some(t) => Ok(
                tagged(
                    "ExternalBody"@,
                    JsonView::Object(
                        seq![
                            inputs,
                            ("outputType"@, type_json(t, e)),
                            ("externalName"@, JsonView::Str(external_name@)),
                            ("targetPlatform"@, JsonView::Str(target_platform@)),
                        ],
                    ),
                ),
            ),
        },
        ValueBody::Incomplete { incompleteness, partial_body } => {
            let head = seq![inputs] + output_members(d.output_type, e) + seq![
                ("incompleteness"@, incompleteness_json(incompleteness)),
            ];
            match partial_body {
                None => Ok(tagged("IncompleteBody"@, JsonView::Object(head))),
                Some(b) => match value_json(b, e) {
                    Err(m) => Err(m),
                    Ok(x) => Ok(tagged("IncompleteBody"@, JsonView::Object(head.push(("partialBody"@, x))))),
                },
            }
        },
    }
}

pub open spec fn idx_views(v: Seq<(String, usize)>) -> Seq<(Seq<char>, int)> {
    v.map_values(|x: (String, usize)| (x.0@, x.1 as int))
}

proof fn lemma_first_key(s: Seq<(Seq<char>, int)>, k: Seq<char>)
    ensures
        match first_key(s, k) {
            Some(i) => 0 <= i < s.len() && s[i].0 == k && forall|j: int| 0 <= j < i ==> (#[trigger] s[j]).0 != k,
            None => forall|j: int| 0 <= j < s.len() ==> (#[trigger] s[j]).0 != k,
        },
    decreases s.len(),
{
    if s.len() > 0 {
        let init = s.drop_last();
        lemma_first_key(init, k);
        match first_key(init, k) {
            Some(i) => {
                assert forall|j: int| 0 <= j < i implies (#[trigger] s[j]).0 != k by {
                    assert(init[j] == s[j]);
                }
                assert(init[i] == s[i]);
            },
            None => {
                assert forall|j: int| 0 <= j < s.len() - 1 implies (#[trigger] s[j]).0 != k by {
                    assert(init[j] == s[j]);
                }
            },
        }
    }
}

/// Every index `keyed_last` holds is one of the first `n` entries.
proof fn lemma_keyed_last_range(keys: Seq<Seq<char>>, n: int)
    requires
        0 <= n <= keys.len(),
    ensures
        forall|j: int| 0 <= j < keyed_last(keys, n).len() ==> 0 <= (#[trigger] keyed_last(keys, n)[j]).1 < n,
        keyed_last(keys, n).len() <= n,
    decreases n,
{
    if n > 0 {
        lemma_keyed_last_range(keys, n - 1);
        lemma_first_key(keyed_last(keys, n - 1), keys[n - 1]);
    }
}

fn find_key(v: &Vec<(String, usize)>, k: &str) -> (r: Option<usize>)
    ensures
        match r {
            Some(i) => first_key(idx_views(v@), k@) == Some(i as int),
            None => first_key(idx_views(v@), k@) is None,
        },
{
    let ghost iv = idx_views(v@);
    proof {
        lemma_first_key(iv, k@);
    }
    let mut i: usize = 0;
    while i < v.len()
        invariant
            i <= v@.len(),
            iv == idx_views(v@),
            iv.len() == v@.len(),
            forall|j: int| 0 <= j < i ==> (#[trigger] iv[j]).0 != k@,
            match first_key(iv, k@) {
                Some(f) => 0 <= f < iv.len() && iv[f].0 == k@ && forall|j: int| 0 <= j < f ==> (#[trigger] iv[j]).0 != k@,
                None => forall|j: int| 0 <= j < iv.len() ==> (#[trigger] iv[j]).0 != k@,
            },
        decreases v.len() - i,
    {
        assert(iv[i as int] == (v@[i as int].0@, v@[i as int].1 as int));
        if str_eq(v[i].0.as_str(), k) {
            return Some(i);
        }
        i = i + 1;
    }
    None
}

/// Add entry `i` under `key` to the keyed index: a key it holds takes the new index in
/// place, a new key goes last.
fn index_step(idx: &mut Vec<(String, usize)>, key: String, i: usize)
    ensures
        idx_views(final(idx)@) == match first_key(idx_views(old(idx)@), key@) {
            Some(p) => idx_views(old(idx)@).update(p, (key@, i as int)),
            None => idx_views(old(idx)@).push((key@, i as int)),
        },
{
    let ghost before = idx_views(idx@);
    proof {
        lemma_first_key(before, key@);
    }
    match find_key(idx, key.as_str()) {
        Some(p) => {
            idx.set(p, (key, i));
            assert(idx_views(idx@) =~= before.update(p as int, (key@, i as int)));
        },
        None => {
            idx.push((key, i));
            assert(idx_views(idx@) =~= before.push((key@, i as int)));
        },
    }
}

fn record_index(fs: &Vec<RecordFieldEntry>) -> (r: Vec<(String, usize)>)
    ensures
        idx_views(r@) == keyed_last(record_keys(fs@), fs@.len() as int),
{
    let ghost keys = record_keys(fs@);
    let mut idx: Vec<(String, usize)> = Vec::new();
    let mut i: usize = 0;
    assert(idx_views(idx@) =~= keyed_last(keys, 0));
    while i < fs.len()
        invariant
            i <= fs@.len(),
            keys == record_keys(fs@),
            idx_views(idx@) == keyed_last(keys, i as int),
        decreases fs.len() - i,
    {
        let key = fs[i].0.to_canonical_string();
        assert(key@ == keys[i as int]);
        index_step(&mut idx, key, i);
        i = i + 1;
    }
    idx
}

fn binding_index(bs: &Vec<LetBinding>) -> (r: Vec<(String, usize)>)
    ensures
        idx_views(r@) == keyed_last(binding_keys(bs@), bs@.len() as int),
{
    let ghost keys = binding_keys(bs@);
    let mut idx: Vec<(String, usize)> = Vec::new();
    let mut i: usize = 0;
    assert(idx_views(idx@) =~= keyed_last(keys, 0));
    while i < bs.len()
        invariant
            i <= bs@.len(),
            keys == binding_keys(bs@),
            idx_views(idx@) == keyed_last(keys, i as int),
        decreases bs.len() - i,
    {
        let key = bs[i].0.to_canonical_string();
        assert(key@ == keys[i as int]);
        index_step(&mut idx, key, i);
        i = i + 1;
    }
    idx
}

/// Write a definition's inputs as members keyed by name.
fn input_map(ins: &Vec<(String, InputTypeEntry)>, encoding: TypeEncoding) -> (r: Vec<(String, JsonValue)>)
    ensures
        member_views(r@) == inputs_json(ins@, encoding, ins@.len() as int),
{
    let mut out: Vec<(String, JsonValue)> = Vec::new();
    let mut i: usize = 0;
    assert(member_views(out@) =~= Seq::<(Seq<char>, JsonView)>::empty());
    while i < ins.len()
        invariant
            i <= ins@.len(),
            member_views(out@) == inputs_json(ins@, encoding, i as int),
        decreases ins.len() - i,
    {
        let key = ins[i].0.clone();
        let value = serialize_type(&ins[i].1.input_type, encoding);
        let ghost prev = member_views(out@);
        proof {
            lemma_member_views(out@);
            lemma_first_member(prev, key@);
        }
        match first_member_index(&out, key.as_str()) {
            Some(p) => {
                proof {
                    lemma_member_views_update(out@, p as int, (key, value));
                }
                out.set(p, (key, value));
            },
            None => {
                proof {
                    crate::json::lemma_member_views_push(out@, key, value);
                }
                out.push((key, value));
            },
        }
        i = i + 1;
    }
    out
}

fn empty_object() -> (r: JsonValue)
    ensures
        r@ == JsonView::Object(Seq::<(Seq<char>, JsonView)>::empty()),
{
    let ms: Vec<(String, JsonValue)> = Vec::new();
    assert(member_views(ms@) =~= Seq::<(Seq<char>, JsonView)>::empty());
    JsonValue::Object(ms)
}

impl NativeHint {
    /// The JSON a native operation's category is written as.
    pub fn serialize(&self) -> (r: JsonValue)
        ensures
            r@ == native_hint_json(*self),
    {
        match self {
            NativeHint::Arithmetic => single_member_object("Arithmetic", empty_object()),
            NativeHint::Comparison => single_member_object("Comparison", empty_object()),
            NativeHint::StringOp => single_member_object("StringOp", empty_object()),
            NativeHint::CollectionOp => single_member_object("CollectionOp", empty_object()),
            NativeHint::PlatformSpecific { platform } => single_member_object(
                "PlatformSpecific",
                single_member_object("platform", JsonValue::Str(platform.clone())),
            ),
        }
    }
}

impl NativeInfo {
    /// The JSON what is known of a native operation is written as.
    pub fn serialize(&self) -> (r: JsonValue)
        ensures
            r@ == native_info_json(*self),
    {
        let mut ms: Vec<(String, JsonValue)> = Vec::new();
        assert(member_views(ms@) =~= Seq::<(Seq<char>, JsonView)>::empty());
        push_member(&mut ms, "hint", self.hint.serialize());
        let d = match &self.description {
            Some(d) => JsonValue::Str(d.clone()),
            None => JsonValue::Null,
        };
        push_member(&mut ms, "description", d);
        assert(member_views(ms@) =~= seq![
            ("hint"@, native_hint_json(self.hint)),
            ("description"@, match self.description {
                Some(d) => JsonView::Str(d@),
                None => JsonView::Null,
            }),
        ]);
        JsonValue::Object(ms)
    }
}

proof fn lemma_values_err(s: Seq<Value>, j: int, e: TypeEncoding)
    requires
        0 <= j <= s.len(),
        values_json(s.take(j), e) is Err,
    ensures
        values_json(s, e) == values_json(s.take(j), e),
    decreases s.len() - j,
{
    if j == s.len() {
        assert(s.take(j) =~= s);
    } else {
        assert(s.take(j + 1).drop_last() =~= s.take(j));
        lemma_values_err(s, j + 1, e);
    }
}

proof fn lemma_cases_err(s: Seq<PatternCase>, j: int, e: TypeEncoding)
    requires
        0 <= j <= s.len(),
        cases_json(s.take(j), e) is Err,
    ensures
        cases_json(s, e) == cases_json(s.take(j), e),
    decreases s.len() - j,
{
    if j == s.len() {
        assert(s.take(j) =~= s);
    } else {
        assert(s.take(j + 1).drop_last() =~= s.take(j));
        lemma_cases_err(s, j + 1, e);
    }
}

proof fn lemma_record_err(fs: Seq<RecordFieldEntry>, idx: Seq<(Seq<char>, int)>, j: int, j2: int, e: TypeEncoding)
    requires
        0 <= j <= j2 <= idx.len(),
        record_members(fs, idx, j, e) is Err,
    ensures
        record_members(fs, idx, j2, e) == record_members(fs, idx, j, e),
    decreases j2 - j,
{
    if j2 > j {
        lemma_record_err(fs, idx, j, j2 - 1, e);
    }
}

proof fn lemma_binding_err(bs: Seq<LetBinding>, idx: Seq<(Seq<char>, int)>, j: int, j2: int, e: TypeEncoding)
    requires
        0 <= j <= j2 <= idx.len(),
        binding_members(bs, idx, j, e) is Err,
    ensures
        binding_members(bs, idx, j2, e) == binding_members(bs, idx, j, e),
    decreases j2 - j,
{
    if j2 > j {
        lemma_binding_err(bs, idx, j, j2 - 1, e);
    }
}

/// Write a list of values.
fn serialize_values(vs: &Vec<Value>, encoding: TypeEncoding) -> (r: Result<Vec<JsonValue>, String>)
    ensures
        match r {
            Ok(xs) => values_json(vs@, encoding) == Ok::<Seq<JsonView>, Seq<char>>(item_views(xs@)),
            Err(m) => values_json(vs@, encoding) == Err::<Seq<JsonView>, Seq<char>>(m@),
        },
    decreases vs, 0int,
{
    let mut out: Vec<JsonValue> = Vec::new();
    let mut i: usize = 0;
    assert(vs@.take(0) =~= Seq::<Value>::empty());
    assert(item_views(out@) =~= Seq::<JsonView>::empty());
    while i < vs.len()
        invariant
            i <= vs@.len(),
            values_json(vs@.take(i as int), encoding) == Ok::<Seq<JsonView>, Seq<char>>(item_views(out@)),
        decreases vs.len() - i,
    {
        proof {
            assert(decreases_to!(*vs => vs@));
            assert(decreases_to!(vs@ => vs@[i as int]));
            assert(vs@.take(i as int + 1).drop_last() =~= vs@.take(i as int));
            assert(vs@.take(i as int + 1).last() == vs@[i as int]);
        }
        let x = match serialize_value(&vs[i], encoding) {
            Ok(x) => x,
            Err(m) => {
                proof {
                    lemma_values_err(vs@, i as int + 1, encoding);
                }
                return Err(m);
            },
        };
        proof {
            lemma_item_views_push(out@, x);
        }
        out.push(x);
        i = i + 1;
    }
    assert(vs@.take(i as int) =~= vs@);
    Ok(out)
}

/// Write pattern match cases.
fn serialize_cases(cs: &Vec<PatternCase>, encoding: TypeEncoding) -> (r: Result<Vec<JsonValue>, String>)
    ensures
        match r {
            Ok(xs) => cases_json(cs@, encoding) == Ok::<Seq<JsonView>, Seq<char>>(item_views(xs@)),
            Err(m) => cases_json(cs@, encoding) == Err::<Seq<JsonView>, Seq<char>>(m@),
        },
    decreases cs, 0int,
{
    let mut out: Vec<JsonValue> = Vec::new();
    let mut i: usize = 0;
    assert(cs@.take(0) =~= Seq::<PatternCase>::empty());
    assert(item_views(out@) =~= Seq::<JsonView>::empty());
    while i < cs.len()
        invariant
            i <= cs@.len(),
            cases_json(cs@.take(i as int), encoding) == Ok::<Seq<JsonView>, Seq<char>>(item_views(out@)),
        decreases cs.len() - i,
    {
        proof {
            assert(decreases_to!(*cs => cs@));
            assert(decreases_to!(cs@ => cs@[i as int]));
            assert(decreases_to!(cs@[i as int] => cs@[i as int].1));
            assert(cs@.take(i as int + 1).drop_last() =~= cs@.take(i as int));
            assert(cs@.take(i as int + 1).last() == cs@[i as int]);
        }
        let b = match serialize_value(&cs[i].1, encoding) {
            Ok(x) => x,
            Err(m) => {
                proof {
                    lemma_cases_err(cs@, i as int + 1, encoding);
                }
                return Err(m);
            },
        };
        let mut ms: Vec<(String, JsonValue)> = Vec::new();
        assert(member_views(ms@) =~= Seq::<(Seq<char>, JsonView)>::empty());
        push_member(&mut ms, "pattern", serialize_pattern(&cs[i].0, encoding));
        push_member(&mut ms, "body", b);
        assert(member_views(ms@) =~= seq![("pattern"@, pattern_json(cs@[i as int].0, encoding)), ("body"@, b@)]);
        let x = JsonValue::Object(ms);
        proof {
            lemma_item_views_push(out@, x);
        }
        out.push(x);
        i = i + 1;
    }
    assert(cs@.take(i as int) =~= cs@);
    Ok(out)
}

/// Write record fields as an object keyed by field name, in declaration order; a name that
/// repeats keeps its first position and takes the last value given under it.
fn serialize_record(fs: &Vec<RecordFieldEntry>, encoding: TypeEncoding) -> (r: Result<JsonValue, String>)
    ensures
        match r {
            Ok(j) => record_json(fs@, keyed_last(record_keys(fs@), fs@.len() as int), encoding) == Ok::<JsonView, Seq<char>>(j@),
            Err(m) => record_json(fs@, keyed_last(record_keys(fs@), fs@.len() as int), encoding) == Err::<JsonView, Seq<char>>(m@),
        },
    decreases fs, 1int,
{
    let idx = record_index(fs);
    let ghost iv = idx_views(idx@);
    proof {
        lemma_keyed_last_range(record_keys(fs@), fs@.len() as int);
    }
    let mut out: Vec<(String, JsonValue)> = Vec::new();
    assert(member_views(out@) =~= Seq::<(Seq<char>, JsonView)>::empty());
    let mut j: usize = 0;
    while j < idx.len()
        invariant
            j <= idx@.len(),
            iv == idx_views(idx@),
            iv == keyed_last(record_keys(fs@), fs@.len() as int),
            iv.len() == idx@.len(),
            forall|q: int| 0 <= q < iv.len() ==> 0 <= (#[trigger] iv[q]).1 < fs@.len(),
            record_members(fs@, iv, j as int, encoding) == Ok::<Seq<(Seq<char>, JsonView)>, Seq<char>>(member_views(out@)),
        decreases idx.len() - j,
    {
        assert(iv[j as int] == (idx@[j as int].0@, idx@[j as int].1 as int));
        let k = idx[j].1;
        assert(k < fs.len());
        proof {
            assert(decreases_to!(*fs => fs@));
            assert(decreases_to!(fs@ => fs@[k as int]));
            assert(decreases_to!(fs@[k as int] => fs@[k as int].1));
        }
        let x = match serialize_value(&fs[k].1, encoding) {
            Ok(x) => x,
            Err(m) => {
                proof {
                    lemma_record_err(fs@, iv, j as int + 1, iv.len() as int, encoding);
                }
                return Err(m);
            },
        };
        push_member(&mut out, idx[j].0.as_str(), x);
        j = j + 1;
    }
    Ok(JsonValue::Object(out))
}

/// Write recursive let bindings as an object keyed by name, in order; a name that repeats
/// keeps its first position and takes the last definition given under it.
fn serialize_bindings(bs: &Vec<LetBinding>, encoding: TypeEncoding) -> (r: Result<JsonValue, String>)
    ensures
        match r {
            Ok(j) => bindings_json(bs@, keyed_last(binding_keys(bs@), bs@.len() as int), encoding) == Ok::<JsonView, Seq<char>>(j@),
            Err(m) => bindings_json(bs@, keyed_last(binding_keys(bs@), bs@.len() as int), encoding) == Err::<JsonView, Seq<char>>(m@),
        },
    decreases bs, 1int,
{
    let idx = binding_index(bs);
    let ghost iv = idx_views(idx@);
    proof {
        lemma_keyed_last_range(binding_keys(bs@), bs@.len() as int);
    }
    let mut out: Vec<(String, JsonValue)> = Vec::new();
    assert(member_views(out@) =~= Seq::<(Seq<char>, JsonView)>::empty());
    let mut j: usize = 0;
    while j < idx.len()
        invariant
            j <= idx@.len(),
            iv == idx_views(idx@),
            iv == keyed_last(binding_keys(bs@), bs@.len() as int),
            iv.len() == idx@.len(),
            forall|q: int| 0 <= q < iv.len() ==> 0 <= (#[trigger] iv[q]).1 < bs@.len(),
            binding_members(bs@, iv, j as int, encoding) == Ok::<Seq<(Seq<char>, JsonView)>, Seq<char>>(member_views(out@)),
        decreases idx.len() - j,
    {
        assert(iv[j as int] == (idx@[j as int].0@, idx@[j as int].1 as int));
        let k = idx[j].1;
        assert(k < bs.len());
        proof {
            assert(decreases_to!(*bs => bs@));
            assert(decreases_to!(bs@ => bs@[k as int]));
            assert(decreases_to!(bs@[k as int] => bs@[k as int].1));
        }
        let x = match serialize_definition(&bs[k].1, encoding) {
            Ok(x) => x,
            Err(m) => {
                proof {
                    lemma_binding_err(bs@, iv, j as int + 1, iv.len() as int, encoding);
                }
                return Err(m);
            },
        };
        push_member(&mut out, idx[j].0.as_str(), x);
        j = j + 1;
    }
    Ok(JsonValue::Object(out))
}

/// Write a value definition.
#[verifier::rlimit(100)]
#[verifier::spinoff_prover]
fn serialize_definition(d: &ValueDefinition, encoding: TypeEncoding) -> (r: Result<JsonValue, String>)
    ensures
        match r {
            Ok(j) => definition_json(*d, encoding) == Ok::<JsonView, Seq<char>>(j@),
            Err(m) => definition_json(*d, encoding) == Err::<JsonView, Seq<char>>(m@),
        },
    decreases d, 2int,
{
    let ghost inputs = ("inputTypes"@, JsonView::Object(inputs_json(d.input_types@, encoding, d.input_types@.len() as int)));
    let mut ms: Vec<(String, JsonValue)> = Vec::new();
    assert(member_views(ms@) =~= Seq::<(Seq<char>, JsonView)>::empty());
    push_member(&mut ms, "inputTypes", JsonValue::Object(input_map(&d.input_types, encoding)));
    assert(member_views(ms@) =~= seq![inputs]);
    match &d.body {
        ValueBody::Expression(b) => {
            let t = match &d.output_type {
                Some(t) => t,
                None => {
                    return Err(String::from_str("ExpressionBody requires outputType"));
                },
            };
            proof {
                assert(decreases_to!(*d => d.body));
                assert(decreases_to!(d.body => d.body->Expression_0));
            }
            let x = match serialize_value(b, encoding) {
                Ok(x) => x,
                Err(m) => {
                    return Err(m);
                },
            };
            push_member(&mut ms, "outputType", serialize_type(t, encoding));
            push_member(&mut ms, "body", x);
            assert(member_views(ms@) =~= seq![inputs, ("outputType"@, type_json(*t, encoding)), ("body"@, x@)]);
            Ok(single_member_object("ExpressionBody", JsonValue::Object(ms)))
        },
        ValueBody::Native(info) => {
            let t = match &d.output_type {
                Some(t) => t,
                None => {
                    return Err(String::from_str("NativeBody requires outputType"));
                },
            };
            push_member(&mut ms, "outputType", serialize_type(t, encoding));
            push_member(&mut ms, "nativeInfo", info.serialize());
            assert(member_views(ms@) =~= seq![inputs, ("outputType"@, type_json(*t, encoding)), ("nativeInfo"@, native_info_json(*info))]);
            Ok(single_member_object("NativeBody", JsonValue::Object(ms)))
        },
        ValueBody::External { external_name, target_platform } => {
            let t = match &d.output_type {
                Some(t) => t,
                None => {
                    return Err(String::from_str("ExternalBody requires outputType"));
                },
            };
            push_member(&mut ms, "outputType", serialize_type(t, encoding));
            push_member(&mut ms, "externalName", JsonValue::Str(external_name.clone()));
            push_member(&mut ms, "targetPlatform", JsonValue::Str(target_platform.clone()));
            assert(member_views(ms@) =~= seq![
                inputs,
                ("outputType"@, type_json(*t, encoding)),
                ("externalName"@, JsonView::Str(external_name@)),
                ("targetPlatform"@, JsonView::Str(target_platform@)),
            ]);
            Ok(single_member_object("ExternalBody", JsonValue::Object(ms)))
        },
        ValueBody::Incomplete { incompleteness, partial_body } => {
            match &d.output_type {
                Some(t) => {
                    push_member(&mut ms, "outputType", serialize_type(t, encoding));
                },
                None => {},
            }
            push_member(&mut ms, "incompleteness", incompleteness.serialize());
            let ghost head = seq![inputs] + output_members(d.output_type, encoding) + seq![
                ("incompleteness"@, incompleteness_json(*incompleteness)),
            ];
            assert(member_views(ms@) =~= head);
            match partial_body {
                None => Ok(single_member_object("IncompleteBody", JsonValue::Object(ms))),
                Some(b) => {
                    proof {
                        assert(decreases_to!(*d => d.body));
                        assert(decreases_to!(d.body => d.body->partial_body));
                        assert(decreases_to!(d.body->partial_body => d.body->partial_body->Some_0));
                    }
                    let x = match serialize_value(b, encoding) {
                        Ok(x) => x,
                        Err(m) => {
                            return Err(m);
                        },
                    };
                    push_member(&mut ms, "partialBody", x);
                    Ok(single_member_object("IncompleteBody", JsonValue::Object(ms)))
                },
            }
        },
    }
}

impl ValueDefinition {
    /// The JSON this definition is written as, or the error that stopped the write.
    pub fn serialize(&self, encoding: TypeEncoding) -> (r: Result<JsonValue, String>)
        ensures
            match r {
                Ok(j) => definition_json(*self, encoding) == Ok::<JsonView, Seq<char>>(j@),
                Err(m) => definition_json(*self, encoding) == Err::<JsonView, Seq<char>>(m@),
            },
    {
        serialize_definition(self, encoding)
    }
}

#[verifier::rlimit(100)]
#[verifier::spinoff_prover]
fn serialize_leaf(val: &Value, encoding: TypeEncoding) -> (r: Result<JsonValue, String>)
    requires
        *val is Literal || *val is Constructor || *val is Reference || *val is Variable || *val is FieldFunction,
    ensures
        match r {
            Ok(j) => value_json(*val, encoding) == Ok::<JsonView, Seq<char>>(j@),
            Err(m) => value_json(*val, encoding) == Err::<JsonView, Seq<char>>(m@),
        },
    decreases val, 1int,
{
    match val {
        Value::Literal(a, l) => {
            if a.is_empty() {
                return Ok(single_member_object("Literal", serialize_literal(l)));
            }
            let mut payload = value_attributes_payload(a, encoding);
            let ghost before = member_views(payload@);
            push_member(&mut payload, "literal", serialize_literal(l));
            assert(member_views(payload@) =~= before + seq![("literal"@, literal_json(*l))]);
            Ok(single_member_object("Literal", JsonValue::Object(payload)))
        },
        Value::Constructor(a, f) => {
            if a.is_empty() {
                return Ok(single_member_object("Constructor", fqname_value(f)));
            }
            let mut payload = value_attributes_payload(a, encoding);
            let ghost before = member_views(payload@);
            push_member(&mut payload, "fqname", fqname_value(f));
            assert(member_views(payload@) =~= before + seq![("fqname"@, fqname_json(*f))]);
            Ok(single_member_object("Constructor", JsonValue::Object(payload)))
        },
        Value::Reference(a, f) => {
            if a.is_empty() {
                return Ok(single_member_object("Reference", fqname_value(f)));
            }
            let mut payload = value_attributes_payload(a, encoding);
            let ghost before = member_views(payload@);
            push_member(&mut payload, "fqname", fqname_value(f));
            assert(member_views(payload@) =~= before + seq![("fqname"@, fqname_json(*f))]);
            Ok(single_member_object("Reference", JsonValue::Object(payload)))
        },
        Value::Variable(a, n) => {
            if a.is_empty() {
                return Ok(single_member_object("Variable", name_value(n)));
            }
            let mut payload = value_attributes_payload(a, encoding);
            let ghost before = member_views(payload@);
            push_member(&mut payload, "name", name_value(n));
            assert(member_views(payload@) =~= before + seq![("name"@, name_json(*n))]);
            Ok(single_member_object("Variable", JsonValue::Object(payload)))
        },
        Value::FieldFunction(a, n) => {
            if a.is_empty() {
                return Ok(single_member_object("FieldFunction", name_value(n)));
            }
            let mut payload = value_attributes_payload(a, encoding);
            let ghost before = member_views(payload@);
            push_member(&mut payload, "name", name_value(n));
            assert(member_views(payload@) =~= before + seq![("name"@, name_json(*n))]);
            Ok(single_member_object("FieldFunction", JsonValue::Object(payload)))
        },
        _ => Err(String::new()),
    }
}

#[verifier::spinoff_prover]
fn serialize_tuple_node(val: &Value, encoding: TypeEncoding) -> (r: Result<JsonValue, String>)
    requires
        *val is Tuple,
    ensures
        match r {
            Ok(j) => value_json(*val, encoding) == Ok::<JsonView, Seq<char>>(j@),
            Err(m) => value_json(*val, encoding) == Err::<JsonView, Seq<char>>(m@),
        },
    decreases val, 1int,
{
    match val {
        Value::Tuple(a, els) => {
            proof {
                assert(decreases_to!(*val => (*val)->Tuple_1));
            }
            let xs = match serialize_values(els, encoding) {
                Ok(xs) => xs,
                Err(m) => {
                    return Err(m);
                },
            };
            if a.is_empty() {
                return Ok(single_member_object("Tuple", JsonValue::Array(xs)));
            }
            let mut payload = value_attributes_payload(a, encoding);
            let ghost before = member_views(payload@);
            let ghost xv = item_views(xs@);
            push_member(&mut payload, "elements", JsonValue::Array(xs));
            assert(member_views(payload@) =~= before + seq![("elements"@, JsonView::Array(xv))]);
            Ok(single_member_object("Tuple", JsonValue::Object(payload)))
        },
        _ => Err(String::new()),
    }
}

#[verifier::spinoff_prover]
fn serialize_list_node(val: &Value, encoding: TypeEncoding) -> (r: Result<JsonValue, String>)
    requires
        *val is List,
    ensures
        match r {
            Ok(j) => value_json(*val, encoding) == Ok::<JsonView, Seq<char>>(j@),
            Err(m) => value_json(*val, encoding) == Err::<JsonView, Seq<char>>(m@),
        },
    decreases val, 1int,
{
    match val {
        Value::List(a, items) => {
            proof {
                assert(decreases_to!(*val => (*val)->List_1));
            }
            let xs = match serialize_values(items, encoding) {
                Ok(xs) => xs,
                Err(m) => {
                    return Err(m);
                },
            };
            if a.is_empty() {
                return Ok(single_member_object("List", JsonValue::Array(xs)));
            }
            let mut payload = value_attributes_payload(a, encoding);
            let ghost before = member_views(payload@);
            let ghost xv = item_views(xs@);
            push_member(&mut payload, "items", JsonValue::Array(xs));
            assert(member_views(payload@) =~= before + seq![("items"@, JsonView::Array(xv))]);
            Ok(single_member_object("List", JsonValue::Object(payload)))
        },
        _ => Err(String::new()),
    }
}

#[verifier::spinoff_prover]
fn serialize_record_node(val: &Value, encoding: TypeEncoding) -> (r: Result<JsonValue, String>)
    requires
        *val is Record,
    ensures
        match r {
            Ok(j) => value_json(*val, encoding) == Ok::<JsonView, Seq<char>>(j@),
            Err(m) => value_json(*val, encoding) == Err::<JsonView, Seq<char>>(m@),
        },
    decreases val, 1int,
{
    match val {
        Value::Record(a, fs) => {
            proof {
                assert(decreases_to!(*val => (*val)->Record_1));
            }
            let mut payload = value_attributes_payload(a, encoding);
            let ghost before = member_views(payload@);
            let x = match serialize_record(fs, encoding) {
                Ok(x) => x,
                Err(m) => {
                    return Err(m);
                },
            };
            push_member(&mut payload, "fields", x);
            assert(member_views(payload@) =~= before + seq![("fields"@, x@)]);
            Ok(single_member_object("Record", JsonValue::Object(payload)))
        },
        _ => Err(String::new()),
    }
}

#[verifier::spinoff_prover]
fn serialize_update_record_node(val: &Value, encoding: TypeEncoding) -> (r: Result<JsonValue, String>)
    requires
        *val is UpdateRecord,
    ensures
        match r {
            Ok(j) => value_json(*val, encoding) == Ok::<JsonView, Seq<char>>(j@),
            Err(m) => value_json(*val, encoding) == Err::<JsonView, Seq<char>>(m@),
        },
    decreases val, 1int,
{
    match val {
        Value::UpdateRecord(a, t, fs) => {
            proof {
                assert(decreases_to!(*val => (*val)->UpdateRecord_2));
            }
            let mut payload = value_attributes_payload(a, encoding);
            let ghost before = member_views(payload@);
            let x = match serialize_value(t, encoding) {
                Ok(x) => x,
                Err(m) => {
                    return Err(m);
                },
            };
            let y = match serialize_record(fs, encoding) {
                Ok(y) => y,
                Err(m) => {
                    return Err(m);
                },
            };
            push_member(&mut payload, "target", x);
            push_member(&mut payload, "fields", y);
            assert(member_views(payload@) =~= before + seq![("target"@, x@), ("fields"@, y@)]);
            Ok(single_member_object("UpdateRecord", JsonValue::Object(payload)))
        },
        _ => Err(String::new()),
    }
}

#[verifier::spinoff_prover]
fn serialize_pattern_match_node(val: &Value, encoding: TypeEncoding) -> (r: Result<JsonValue, String>)
    requires
        *val is PatternMatch,
    ensures
        match r {
            Ok(j) => value_json(*val, encoding) == Ok::<JsonView, Seq<char>>(j@),
            Err(m) => value_json(*val, encoding) == Err::<JsonView, Seq<char>>(m@),
        },
    decreases val, 1int,
{
    match val {
        Value::PatternMatch(a, x0, cs) => {
            proof {
                assert(decreases_to!(*val => (*val)->PatternMatch_2));
            }
            let mut payload = value_attributes_payload(a, encoding);
            let ghost before = member_views(payload@);
            let x = match serialize_value(x0, encoding) {
                Ok(x) => x,
                Err(m) => {
                    return Err(m);
                },
            };
            let ys = match serialize_cases(cs, encoding) {
                Ok(ys) => ys,
                Err(m) => {
                    return Err(m);
                },
            };
            let ghost yv = item_views(ys@);
            push_member(&mut payload, "value", x);
            push_member(&mut payload, "cases", JsonValue::Array(ys));
            assert(member_views(payload@) =~= before + seq![("value"@, x@), ("cases"@, JsonView::Array(yv))]);
            Ok(single_member_object("PatternMatch", JsonValue::Object(payload)))
        },
        _ => Err(String::new()),
    }
}

#[verifier::spinoff_prover]
fn serialize_let_recursion_node(val: &Value, encoding: TypeEncoding) -> (r: Result<JsonValue, String>)
    requires
        *val is LetRecursion,
    ensures
        match r {
            Ok(j) => value_json(*val, encoding) == Ok::<JsonView, Seq<char>>(j@),
            Err(m) => value_json(*val, encoding) == Err::<JsonView, Seq<char>>(m@),
        },
    decreases val, 1int,
{
    match val {
        Value::LetRecursion(a, bs, b) => {
            proof {
                assert(decreases_to!(*val => (*val)->LetRecursion_1));
            }
            let mut payload = value_attributes_payload(a, encoding);
            let ghost before = member_views(payload@);
            let x = match serialize_bindings(bs, encoding) {
                Ok(x) => x,
                Err(m) => {
                    return Err(m);
                },
            };
            let y = match serialize_value(b, encoding) {
                Ok(y) => y,
                Err(m) => {
                    return Err(m);
                },
            };
            push_member(&mut payload, "definitions", x);
            push_member(&mut payload, "in", y);
            assert(member_views(payload@) =~= before + seq![("definitions"@, x@), ("in"@, y@)]);
            Ok(single_member_object("LetRecursion", JsonValue::Object(payload)))
        },
        _ => Err(String::new()),
    }
}


#[verifier::spinoff_prover]
fn serialize_field_node(val: &Value, encoding: TypeEncoding) -> (r: Result<JsonValue, String>)
    requires
        *val is Field,
    ensures
        match r {
            Ok(j) => value_json(*val, encoding) == Ok::<JsonView, Seq<char>>(j@),
            Err(m) => value_json(*val, encoding) == Err::<JsonView, Seq<char>>(m@),
        },
    decreases val, 1int,
{
    match val {
        Value::Field(a, t, n) => {
            let mut payload = value_attributes_payload(a, encoding);
            let ghost before = member_views(payload@);
            let x = match serialize_value(t, encoding) {
                Ok(x) => x,
                Err(m) => {
                    return Err(m);
                },
            };
            push_member(&mut payload, "target", x);
            push_member(&mut payload, "name", name_value(n));
            assert(member_views(payload@) =~= before + seq![("target"@, x@), ("name"@, name_json(*n))]);
            Ok(single_member_object("Field", JsonValue::Object(payload)))
        },
        _ => Err(String::new()),
    }
}

#[verifier::spinoff_prover]
fn serialize_apply_node(val: &Value, encoding: TypeEncoding) -> (r: Result<JsonValue, String>)
    requires
        *val is Apply,
    ensures
        match r {
            Ok(j) => value_json(*val, encoding) == Ok::<JsonView, Seq<char>>(j@),
            Err(m) => value_json(*val, encoding) == Err::<JsonView, Seq<char>>(m@),
        },
    decreases val, 1int,
{
    match val {
        Value::Apply(a, f, g) => {
            let mut payload = value_attributes_payload(a, encoding);
            let ghost before = member_views(payload@);
            let x = match serialize_value(f, encoding) {
                Ok(x) => x,
                Err(m) => {
                    return Err(m);
                },
            };
            let y = match serialize_value(g, encoding) {
                Ok(y) => y,
                Err(m) => {
                    return Err(m);
                },
            };
            push_member(&mut payload, "function", x);
            push_member(&mut payload, "argument", y);
            assert(member_views(payload@) =~= before + seq![("function"@, x@), ("argument"@, y@)]);
            Ok(single_member_object("Apply", JsonValue::Object(payload)))
        },
        _ => Err(String::new()),
    }
}

#[verifier::spinoff_prover]
fn serialize_lambda_node(val: &Value, encoding: TypeEncoding) -> (r: Result<JsonValue, String>)
    requires
        *val is Lambda,
    ensures
        match r {
            Ok(j) => value_json(*val, encoding) == Ok::<JsonView, Seq<char>>(j@),
            Err(m) => value_json(*val, encoding) == Err::<JsonView, Seq<char>>(m@),
        },
    decreases val, 1int,
{
    match val {
        Value::Lambda(a, p, b) => {
            let mut payload = value_attributes_payload(a, encoding);
            let ghost before = member_views(payload@);
            let pj = serialize_pattern(p, encoding);
            let y = match serialize_value(b, encoding) {
                Ok(y) => y,
                Err(m) => {
                    return Err(m);
                },
            };
            push_member(&mut payload, "pattern", pj);
            push_member(&mut payload, "body", y);
            assert(member_views(payload@) =~= before + seq![("pattern"@, pattern_json(*p, encoding)), ("body"@, y@)]);
            Ok(single_member_object("Lambda", JsonValue::Object(payload)))
        },
        _ => Err(String::new()),
    }
}

#[verifier::spinoff_prover]
fn serialize_let_definition_node(val: &Value, encoding: TypeEncoding) -> (r: Result<JsonValue, String>)
    requires
        *val is LetDefinition,
    ensures
        match r {
            Ok(j) => value_json(*val, encoding) == Ok::<JsonView, Seq<char>>(j@),
            Err(m) => value_json(*val, encoding) == Err::<JsonView, Seq<char>>(m@),
        },
    decreases val, 1int,
{
    match val {
        Value::LetDefinition(a, n, d, b) => {
            let mut payload = value_attributes_payload(a, encoding);
            let ghost before = member_views(payload@);
            let x = match serialize_definition(d, encoding) {
                Ok(x) => x,
                Err(m) => {
                    return Err(m);
                },
            };
            let y = match serialize_value(b, encoding) {
                Ok(y) => y,
                Err(m) => {
                    return Err(m);
                },
            };
            push_member(&mut payload, "name", name_value(n));
            push_member(&mut payload, "definition", x);
            push_member(&mut payload, "in", y);
            assert(member_views(payload@) =~= before + seq![("name"@, name_json(*n)), ("definition"@, x@)].push(("in"@, y@)));
            Ok(single_member_object("LetDefinition", JsonValue::Object(payload)))
        },
        _ => Err(String::new()),
    }
}

#[verifier::spinoff_prover]
fn serialize_destructure_node(val: &Value, encoding: TypeEncoding) -> (r: Result<JsonValue, String>)
    requires
        *val is Destructure,
    ensures
        match r {
            Ok(j) => value_json(*val, encoding) == Ok::<JsonView, Seq<char>>(j@),
            Err(m) => value_json(*val, encoding) == Err::<JsonView, Seq<char>>(m@),
        },
    decreases val, 1int,
{
    match val {
        Value::Destructure(a, p, x0, b) => {
            let mut payload = value_attributes_payload(a, encoding);
            let ghost before = member_views(payload@);
            let pj = serialize_pattern(p, encoding);
            let x = match serialize_value(x0, encoding) {
                Ok(x) => x,
                Err(m) => {
                    return Err(m);
                },
            };
            let y = match serialize_value(b, encoding) {
                Ok(y) => y,
                Err(m) => {
                    return Err(m);
                },
            };
            push_member(&mut payload, "pattern", pj);
            push_member(&mut payload, "value", x);
            push_member(&mut payload, "in", y);
            assert(member_views(payload@) =~= before + seq![("pattern"@, pattern_json(*p, encoding)), ("value"@, x@)].push(("in"@, y@)));
            Ok(single_member_object("Destructure", JsonValue::Object(payload)))
        },
        _ => Err(String::new()),
    }
}

#[verifier::spinoff_prover]
fn serialize_if_then_else_node(val: &Value, encoding: TypeEncoding) -> (r: Result<JsonValue, String>)
    requires
        *val is IfThenElse,
    ensures
        match r {
            Ok(j) => value_json(*val, encoding) == Ok::<JsonView, Seq<char>>(j@),
            Err(m) => value_json(*val, encoding) == Err::<JsonView, Seq<char>>(m@),
        },
    decreases val, 1int,
{
    match val {
        Value::IfThenElse(a, c, t, f) => {
            let mut payload = value_attributes_payload(a, encoding);
            let ghost before = member_views(payload@);
            let x = match serialize_value(c, encoding) {
                Ok(x) => x,
                Err(m) => {
                    return Err(m);
                },
            };
            let y = match serialize_value(t, encoding) {
                Ok(y) => y,
                Err(m) => {
                    return Err(m);
                },
            };
            let z = match serialize_value(f, encoding) {
                Ok(z) => z,
                Err(m) => {
                    return Err(m);
                },
            };
            push_member(&mut payload, "condition", x);
            push_member(&mut payload, "then", y);
            push_member(&mut payload, "else", z);
            assert(member_views(payload@) =~= before + seq![("condition"@, x@), ("then"@, y@)].push(("else"@, z@)));
            Ok(single_member_object("IfThenElse", JsonValue::Object(payload)))
        },
        _ => Err(String::new()),
    }
}


/// Write a value expression in its canonical v4 spelling, or say what stopped the write.
pub fn serialize_value(val: &Value, encoding: TypeEncoding) -> (r: Result<JsonValue, String>)
    ensures
        match r {
            Ok(j) => value_json(*val, encoding) == Ok::<JsonView, Seq<char>>(j@),
            Err(m) => value_json(*val, encoding) == Err::<JsonView, Seq<char>>(m@),
        },
    decreases val, 2int,
{
    match val {
        Value::Literal(..) | Value::Constructor(..) | Value::Reference(..) | Value::Variable(..) | Value::FieldFunction(..) => serialize_leaf(val, encoding),
        Value::Tuple(..) => serialize_tuple_node(val, encoding),
        Value::List(..) => serialize_list_node(val, encoding),
        Value::Record(..) => serialize_record_node(val, encoding),
        Value::UpdateRecord(..) => serialize_update_record_node(val, encoding),
        Value::PatternMatch(..) => serialize_pattern_match_node(val, encoding),
        Value::LetRecursion(..) => serialize_let_recursion_node(val, encoding),
        Value::Field(..) => serialize_field_node(val, encoding),
        Value::Apply(..) => serialize_apply_node(val, encoding),
        Value::Lambda(..) => serialize_lambda_node(val, encoding),
        Value::LetDefinition(..) => serialize_let_definition_node(val, encoding),
        Value::Destructure(..) => serialize_destructure_node(val, encoding),
        Value::IfThenElse(..) => serialize_if_then_else_node(val, encoding),
        Value::Unit(a) => {
            let payload = value_attributes_payload(a, encoding);
            assert(member_views(payload@) =~= value_attributes_members(*a, encoding) + Seq::<(Seq<char>, JsonView)>::empty());
            Ok(single_member_object("Unit", JsonValue::Object(payload)))
        },
        Value::Hole(a, reason, t) => {
            let mut payload = value_attributes_payload(a, encoding);
            let ghost before = member_views(payload@);
            push_member(&mut payload, "reason", reason.serialize());
            match t {
                Some(t) => {
                    push_member(&mut payload, "expectedType", serialize_type(t, encoding));
                },
                None => {},
            }
            assert(member_views(payload@) =~= before + (seq![("reason"@, hole_reason_json(*reason))] + match *t {
                Some(t) => seq![("expectedType"@, type_json(*t, encoding))],
                None => Seq::<(Seq<char>, JsonView)>::empty(),
            }));
            Ok(single_member_object("Hole", JsonValue::Object(payload)))
        },
        Value::Native(..) => Err(String::from_str("a native value has no v4 spelling")),
        Value::External(..) => Err(String::from_str("an external value has no v4 spelling")),
    }
}


/// The members of the payload of a single-member wrapper `{ tag: { ... } }`, when `j` is one.
pub open spec fn wrapper_payload(j: JsonView, tag: Seq<char>) -> Option<Seq<(Seq<char>, JsonView)>> {
    match j {
        JsonView::Object(ms) => if ms.len() == 1 && ms[0].0 == tag {
            match ms[0].1 {
                JsonView::Object(p) => Some(p),
                _ => None,
            }
        } else {
            None
        },
        _ => None,
    }
}

/// Looking up `k2` in `lead + [(k1, v1), (k2, v2)]`, where `lead` names neither key, finds
/// `v2`; looking up `k1` finds `v1`.
proof fn lemma_two_members(
    lead: Seq<(Seq<char>, JsonView)>,
    k1: Seq<char>,
    v1: JsonView,
    k2: Seq<char>,
    v2: JsonView,
)
    requires
        forall|i: int| 0 <= i < lead.len() ==> (#[trigger] lead[i]).0 != k1 && lead[i].0 != k2,
        k1 != k2,
    ensures
        member_named(lead + seq![(k1, v1), (k2, v2)], k1) == Some(v1),
        member_named(lead + seq![(k1, v1), (k2, v2)], k2) == Some(v2),
{
    let ms = lead + seq![(k1, v1), (k2, v2)];
    let n = lead.len() as int;
    assert(ms[n] == (k1, v1));
    assert(ms[n + 1] == (k2, v2));
    assert forall|i: int| 0 <= i < n implies #[trigger] ms[i] == lead[i] by {}
    lemma_first_member(ms, k1);
    lemma_first_member(ms, k2);
    match first_member(ms, k1) {
        Some(i) => {
            if i < n {
                assert(ms[i] == lead[i]);
            }
        },
        None => {
            assert(ms[n].0 == k1);
        },
    }
    match first_member(ms, k2) {
        Some(i) => {
            if i < n {
                assert(ms[i] == lead[i]);
            }
        },
        None => {
            assert(ms[n + 1].0 == k2);
        },
    }
}

/// In every encoding a function type is written as a `Function` wrapper whose
/// `parameterType` member is its parameter type as written and whose `returnType` member is
/// its return type as written.
pub proof fn lemma_function_type_members(a: TypeAttributes, p: Type, r: Type, e: TypeEncoding)
    ensures
        wrapper_payload(type_json(Type::Function(a, Box::new(p), Box::new(r)), e), "Function"@) matches Some(ms)
            && member_named(ms, "parameterType"@) == Some(type_json(p, e))
            && member_named(ms, "returnType"@) == Some(type_json(r, e)),
{
    reveal_strlit("attributes");
    reveal_strlit("parameterType");
    reveal_strlit("returnType");
    let t = Type::Function(a, Box::new(p), Box::new(r));
    let lead = if e == TypeEncoding::Compact && type_attributes_plain(a) {
        Seq::<(Seq<char>, JsonView)>::empty()
    } else {
        attributes_members(a)
    };
    assert(forall|i: int| 0 <= i < lead.len() ==> (#[trigger] lead[i]).0 == "attributes"@);
    assert("attributes"@[0] != "parameterType"@[0]);
    assert("attributes"@[0] != "returnType"@[0]);
    assert("parameterType"@[0] != "returnType"@[0]);
    lemma_two_members(lead, "parameterType"@, type_json(p, e), "returnType"@, type_json(r, e));
    if e == TypeEncoding::Compact && type_attributes_plain(a) {
        assert(seq![("parameterType"@, type_json(p, e)), ("returnType"@, type_json(r, e))] =~= lead + seq![
            ("parameterType"@, type_json(p, e)),
            ("returnType"@, type_json(r, e)),
        ]);
    }
}

/// An application is written as an `Apply` wrapper exactly when its function and its
/// argument can be written; its `function` member is then the function as written and its
/// `argument` member the argument as written.
#[verifier::rlimit(60)]
pub proof fn lemma_apply_members(a: ValueAttributes, f: Value, x: Value, e: TypeEncoding)
    ensures
        (value_json(Value::Apply(a, Box::new(f), Box::new(x)), e) is Ok) == (value_json(f, e) is Ok && value_json(x, e) is Ok),
        value_json(Value::Apply(a, Box::new(f), Box::new(x)), e) is Ok ==> (wrapper_payload(
            value_json(Value::Apply(a, Box::new(f), Box::new(x)), e)->Ok_0,
            "Apply"@,
        ) matches Some(ms) && member_named(ms, "function"@) == Some(value_json(f, e)->Ok_0)
            && member_named(ms, "argument"@) == Some(value_json(x, e)->Ok_0)),
{
    reveal_strlit("attributes");
    reveal_strlit("function");
    reveal_strlit("argument");
    let v = Value::Apply(a, Box::new(f), Box::new(x));
    assert(value_json(v, e) == node_json(
        "Apply"@,
        a,
        e,
        join2("function"@, value_json(f, e), "argument"@, value_json(x, e)),
    ));
    let lead = value_attributes_members(a, e);
    assert(forall|i: int| 0 <= i < lead.len() ==> (#[trigger] lead[i]).0 == "attributes"@);
    assert("attributes"@[1] != "function"@[1]);
    assert("attributes"@[1] != "argument"@[1]);
    assert("function"@[0] != "argument"@[0]);
    if value_json(f, e) is Ok && value_json(x, e) is Ok {
        lemma_two_members(lead, "function"@, value_json(f, e)->Ok_0, "argument"@, value_json(x, e)->Ok_0);
    }
}


/// The member named `k` of `ms` is the one at `j` when no earlier member has that name.
proof fn lemma_member_in(ms: Seq<(Seq<char>, JsonView)>, j: int, k: Seq<char>)
    requires
        0 <= j < ms.len(),
        ms[j].0 == k,
        forall|i: int| 0 <= i < j ==> (#[trigger] ms[i]).0 != k,
    ensures
        member_named(ms, k) == Some(ms[j].1),
{
    lemma_first_member(ms, k);
    match first_member(ms, k) {
        Some(i) => {
            if i < j {
                assert(ms[i].0 != k);
            } else if i > j {
                assert(ms[j].0 != k);
            }
        },
        None => {
            assert(ms[j].0 != k);
        },
    }
}

/// A conditional is written as an `IfThenElse` wrapper exactly when its three parts can be
/// written; its `condition`, `then` and `else` members are then the condition, the branch
/// taken when it holds and the other branch, each as written.
#[verifier::rlimit(60)]
pub proof fn lemma_if_then_else_members(a: ValueAttributes, c: Value, t: Value, f: Value, e: TypeEncoding)
    ensures
        (value_json(Value::IfThenElse(a, Box::new(c), Box::new(t), Box::new(f)), e) is Ok) == (value_json(c, e) is Ok
            && value_json(t, e) is Ok && value_json(f, e) is Ok),
        value_json(Value::IfThenElse(a, Box::new(c), Box::new(t), Box::new(f)), e) is Ok ==> (wrapper_payload(
            value_json(Value::IfThenElse(a, Box::new(c), Box::new(t), Box::new(f)), e)->Ok_0,
            "IfThenElse"@,
        ) matches Some(ms) && member_named(ms, "condition"@) == Some(value_json(c, e)->Ok_0)
            && member_named(ms, "then"@) == Some(value_json(t, e)->Ok_0)
            && member_named(ms, "else"@) == Some(value_json(f, e)->Ok_0)),
{
    reveal_strlit("attributes");
    reveal_strlit("condition");
    reveal_strlit("then");
    reveal_strlit("else");
    let v = Value::IfThenElse(a, Box::new(c), Box::new(t), Box::new(f));
    assert(value_json(v, e) == node_json(
        "IfThenElse"@,
        a,
        e,
        join3("condition"@, value_json(c, e), "then"@, value_json(t, e), "else"@, value_json(f, e)),
    ));
    let lead = value_attributes_members(a, e);
    if value_json(c, e) is Ok && value_json(t, e) is Ok && value_json(f, e) is Ok {
        let ms = lead + seq![("condition"@, value_json(c, e)->Ok_0), ("then"@, value_json(t, e)->Ok_0)].push(
            ("else"@, value_json(f, e)->Ok_0),
        );
        let n = lead.len() as int;
        assert forall|i: int| 0 <= i < n implies (#[trigger] ms[i]).0 == "attributes"@ by {
            assert(ms[i] == lead[i]);
        }
        assert("then"@[0] != "else"@[0]);
        assert("attributes"@.len() != "condition"@.len());
        assert("attributes"@.len() != "then"@.len());
        assert("attributes"@.len() != "else"@.len());
        assert("condition"@.len() != "then"@.len());
        assert("condition"@.len() != "else"@.len());
        assert(ms[n].0 == "condition"@ && ms[n + 1].0 == "then"@ && ms[n + 2].0 == "else"@);
        lemma_member_in(ms, n, "condition"@);
        lemma_member_in(ms, n + 1, "then"@);
        lemma_member_in(ms, n + 2, "else"@);
    }
}

/// In every encoding an extensible record type is written as an `ExtensibleRecord` wrapper
/// whose `variable` member is its row variable's name.
pub proof fn lemma_extensible_record_type_members(a: TypeAttributes, v: Name, fs: Vec<Field>, e: TypeEncoding)
    ensures
        wrapper_payload(type_json(Type::ExtensibleRecord(a, v, fs), e), "ExtensibleRecord"@) matches Some(ms)
            && member_named(ms, "variable"@) == Some(name_json(v))
            && member_named(ms, "fields"@) == Some(JsonView::Object(fields_json(fs@, e, fs@.len() as int))),
{
    reveal_strlit("attributes");
    reveal_strlit("variable");
    reveal_strlit("fields");
    let lead = if e == TypeEncoding::Compact && type_attributes_plain(a) {
        Seq::<(Seq<char>, JsonView)>::empty()
    } else {
        attributes_members(a)
    };
    assert(forall|i: int| 0 <= i < lead.len() ==> (#[trigger] lead[i]).0 == "attributes"@);
    let fj = JsonView::Object(fields_json(fs@, e, fs@.len() as int));
    assert("variable"@.len() != "fields"@.len());
    assert("attributes"@.len() != "fields"@.len());
    assert("attributes"@.len() != "variable"@.len());
    lemma_two_members(lead, "variable"@, name_json(v), "fields"@, fj);
    if e == TypeEncoding::Compact && type_attributes_plain(a) {
        assert(seq![("variable"@, name_json(v)), ("fields"@, fj)] =~= lead + seq![("variable"@, name_json(v)), ("fields"@, fj)]);
    }
}

} // verus!
