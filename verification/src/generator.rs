//! Reads the serialized fields of a script type from the .NET metadata model
//! and builds its template tree, following Unity's serialization rules.
use vstd::prelude::*;
use crate::field::{TemplateField, Field, models, fnode, fleaf, opt_models};
use crate::metadata::{
    Assembly, FieldDef, MemberType, Primitive, TypeDef, TypeId, TypeRef, valid_id, tdef, resolve_ref,
    resolve_type_ref, names, records, lemma_records_none, lemma_records_trans, resolve_ref_needs, resolve_in_needs, first_top_level, find_top_level, copy_text, first_forwarder,
    find_forwarder, resolve_in, resolve_in_assembly, first_assembly, lemma_first_assembly_range, lemma_first_top_level_in, lemma_first_forwarder_in,
};
use crate::template::{
    string_children, pptr_children, managed_reference_children, special_unity_children,
    convert_base_to_primitive, type_aligns_by_name, vector, vector_with_type, managed_references_registry,
    is_special_unity_type, is_assembly_blacklisted,
    aligns_by_name, base_to_primitive, special_unity_type, blacklisted, string_children_model,
    vector_model, vector_with_type_model, pptr_children_model, managed_reference_children_model,
    special_unity_children_model, managed_references_registry_model,
};
use crate::text::{owned, joined, text_eq};
use vstd::set_lib::set_int_range;
use crate::version::{UnityVersion, serialization_limit_spec};

verus! {

broadcast use crate::field::group_models;

// --- free helpers over signatures ---

/// The type-tree name of a primitive.
pub open spec fn prim_name(p: Primitive) -> Seq<char> {
    match p {
        Primitive::Boolean => "UInt8"@,
        Primitive::Char => "UInt16"@,
        Primitive::Int8 => "SInt8"@,
        Primitive::UInt8 => "UInt8"@,
        Primitive::Int16 => "SInt16"@,
        Primitive::UInt16 => "UInt16"@,
        Primitive::Int32 => "int"@,
        Primitive::UInt32 => "unsigned int"@,
        Primitive::Int64 => "SInt64"@,
        Primitive::UInt64 => "UInt64"@,
        Primitive::Float32 => "float"@,
        Primitive::Float64 => "double"@,
    }
}

/// The .NET full name of a primitive.
pub open spec fn prim_full_name(p: Primitive) -> Seq<char> {
    match p {
        Primitive::Boolean => "System.Boolean"@,
        Primitive::Char => "System.Char"@,
        Primitive::Int8 => "System.SByte"@,
        Primitive::UInt8 => "System.Byte"@,
        Primitive::Int16 => "System.Int16"@,
        Primitive::UInt16 => "System.UInt16"@,
        Primitive::Int32 => "System.Int32"@,
        Primitive::UInt32 => "System.UInt32"@,
        Primitive::Int64 => "System.Int64"@,
        Primitive::UInt64 => "System.UInt64"@,
        Primitive::Float32 => "System.Single"@,
        Primitive::Float64 => "System.Double"@,
    }
}

pub fn base_type_primitive_name(p: &Primitive) -> (r: &'static str)
    ensures
        r@ == prim_name(*p),
{
    match p {
        Primitive::Boolean => "UInt8",
        Primitive::Char => "UInt16",
        Primitive::Int8 => "SInt8",
        Primitive::UInt8 => "UInt8",
        Primitive::Int16 => "SInt16",
        Primitive::UInt16 => "UInt16",
        Primitive::Int32 => "int",
        Primitive::UInt32 => "unsigned int",
        Primitive::Int64 => "SInt64",
        Primitive::UInt64 => "UInt64",
        Primitive::Float32 => "float",
        Primitive::Float64 => "double",
    }
}

pub open spec fn primitive_name_of(m: MemberType) -> Option<Seq<char>> {
    match m {
        MemberType::Primitive(p) => Some(prim_name(p)),
        _ => None,
    }
}

pub fn base_primitive_name(member: &MemberType) -> (r: Option<&'static str>)
    ensures
        match r {
            Some(s) => primitive_name_of(*member) == Some(s@),
            None => primitive_name_of(*member) is None,
        },
{
    match member {
        MemberType::Primitive(p) => Some(base_type_primitive_name(p)),
        _ => None,
    }
}

pub open spec fn primitive_full_name_of(m: MemberType) -> Option<Seq<char>> {
    match m {
        MemberType::Primitive(p) => Some(prim_full_name(p)),
        _ => None,
    }
}

pub fn base_primitive_full_name(member: &MemberType) -> (r: Option<String>)
    ensures
        match r {
            Some(s) => primitive_full_name_of(*member) == Some(s@),
            None => primitive_full_name_of(*member) is None,
        },
{
    match member {
        MemberType::Primitive(p) => Some(owned(match p {
            Primitive::Boolean => "System.Boolean",
            Primitive::Char => "System.Char",
            Primitive::Int8 => "System.SByte",
            Primitive::UInt8 => "System.Byte",
            Primitive::Int16 => "System.Int16",
            Primitive::UInt16 => "System.UInt16",
            Primitive::Int32 => "System.Int32",
            Primitive::UInt32 => "System.UInt32",
            Primitive::Int64 => "System.Int64",
            Primitive::UInt64 => "System.UInt64",
            Primitive::Float32 => "System.Single",
            Primitive::Float64 => "System.Double",
        })),
        _ => None,
    }
}

pub open spec fn vector_elem(m: MemberType) -> Option<MemberType> {
    match m {
        MemberType::Vector(b) => Some(*b),
        _ => None,
    }
}

pub fn vector_element(member: &MemberType) -> (r: Option<&MemberType>)
    ensures
        match r {
            Some(e) => vector_elem(*member) == Some(*e),
            None => vector_elem(*member) is None,
        },
{
    match member {
        MemberType::Vector(b) => Some(&**b),
        _ => None,
    }
}

pub fn is_string(member: &MemberType) -> (r: bool)
    ensures
        r == (*member is Str),
{
    match member {
        MemberType::Str => true,
        _ => false,
    }
}

/// The element type of `List<T>`.
pub open spec fn list_elem(m: MemberType) -> Option<MemberType> {
    match m {
        MemberType::Generic(r, ps) => if r.full_name@ == "System.Collections.Generic.List`1"@ && ps@.len() > 0 {
            Some(ps@[0])
        } else {
            None
        },
        _ => None,
    }
}

/// The element type of an array or a `List<T>`.
pub open spec fn collection_elem(m: MemberType) -> Option<MemberType> {
    match vector_elem(m) {
        Some(e) => Some(e),
        None => list_elem(m),
    }
}

/// The definition a signature names, resolved from assembly `a`.
pub open spec fn user_def_of(u: Seq<Assembly>, a: usize, m: MemberType) -> Option<TypeId> {
    match m {
        MemberType::Named(r) => resolve_ref(u, a, r),
        _ => None,
    }
}

/// The names of the assemblies that resolving the signature `m` needs and finds not loaded.
pub open spec fn user_def_of_needs(u: Seq<Assembly>, a: usize, m: MemberType) -> Set<Seq<char>> {
    match m {
        MemberType::Named(r) => resolve_ref_needs(u, a, r),
        _ => Set::empty(),
    }
}

pub fn user_definition_of(u: &Vec<Assembly>, a: usize, member: &MemberType, missing: &mut Vec<String>) -> (r: Option<TypeId>)
    ensures
        r == user_def_of(u@, a, *member),
        r matches Some(id) ==> valid_id(u@, id),
        records(old(missing)@, final(missing)@, user_def_of_needs(u@, a, *member)),
{
    proof {
        lemma_records_none(missing@);
    }
    match member {
        MemberType::Named(r) => resolve_type_ref(u, a, r, missing),
        _ => None,
    }
}

/// The definition a base type names (never a generic instantiation), resolved from assembly `a`.
pub open spec fn user_def(u: Seq<Assembly>, a: usize, ts: TypeRef, generic: bool) -> Option<TypeId> {
    if generic {
        None
    } else {
        resolve_ref(u, a, ts)
    }
}

/// The names of the assemblies that resolving the base type `ts` needs and finds not loaded.
pub open spec fn user_def_needs(u: Seq<Assembly>, a: usize, ts: TypeRef, generic: bool) -> Set<Seq<char>> {
    if generic {
        Set::empty()
    } else {
        resolve_ref_needs(u, a, ts)
    }
}

pub fn user_definition(u: &Vec<Assembly>, a: usize, ts: &TypeRef, generic: bool, missing: &mut Vec<String>) -> (r: Option<TypeId>)
    ensures
        r == user_def(u@, a, *ts, generic),
        r matches Some(id) ==> valid_id(u@, id),
        records(old(missing)@, final(missing)@, user_def_needs(u@, a, *ts, generic)),
{
    if generic {
        proof {
            lemma_records_none(missing@);
        }
        None
    } else {
        resolve_type_ref(u, a, ts, missing)
    }
}

/// Whether `name` is one of the attribute full names of `f`.
pub open spec fn has_attr(f: FieldDef, name: Seq<char>) -> bool {
    exists|i: int| 0 <= i < f.attributes@.len() && (#[trigger] f.attributes@[i])@ == name
}

pub open spec fn base_stop(n: Seq<char>) -> bool {
    ||| n == "System.Object"@
    ||| n == "UnityEngine.Object"@
    ||| n == "UnityEngine.MonoBehaviour"@
    ||| n == "UnityEngine.ScriptableObject"@
}

/// Base types at which inherited-field walking stops.
pub fn is_base_stop(n: &str) -> (r: bool)
    ensures
        r == base_stop(n@),
{
    text_eq(n, "System.Object") || text_eq(n, "UnityEngine.Object") || text_eq(n, "UnityEngine.MonoBehaviour")
        || text_eq(n, "UnityEngine.ScriptableObject")
}

/// The full name of the base type of `id`.
pub open spec fn base_name(u: Seq<Assembly>, id: TypeId) -> Option<Seq<char>> {
    match tdef(u, id).extends {
        Some(ts) => Some(ts.full_name@),
        None => None,
    }
}

pub open spec fn value_type(u: Seq<Assembly>, id: TypeId) -> bool {
    base_name(u, id) == Some("System.ValueType"@) || base_name(u, id) == Some("System.Enum"@)
}

/// Index of the first field of `fs` at or after `i` named `value__`.
pub open spec fn first_value_field(fs: Seq<FieldDef>, i: int) -> Option<int>
    decreases fs.len() - i,
{
    if i < 0 || i >= fs.len() {
        None
    } else if fs[i].name@ == "value__"@ {
        Some(i)
    } else {
        first_value_field(fs, i + 1)
    }
}

/// The .NET full name of the underlying type of `id` if it is an enum.
pub open spec fn enum_under(u: Seq<Assembly>, id: TypeId) -> Option<Seq<char>> {
    if base_name(u, id) != Some("System.Enum"@) {
        None
    } else {
        match first_value_field(tdef(u, id).fields@, 0) {
            Some(k) => primitive_full_name_of(tdef(u, id).fields@[k].ty),
            None => None,
        }
    }
}

/// Whether `id` derives from `UnityEngine.Object`, walking at most `hops` base types.
pub open spec fn derives_ueobject(u: Seq<Assembly>, id: TypeId, hops: nat) -> bool
    decreases hops,
{
    let d = tdef(u, id);
    if d.interface {
        false
    } else if d.full_name@ == "UnityEngine.Object"@ {
        true
    } else {
        match d.extends {
            None => false,
            Some(ts) => {
                let b = ts.full_name@;
                if b == "UnityEngine.Object"@ {
                    true
                } else if b == "System.Object"@ {
                    false
                } else {
                    match user_def(u, id.0, ts, d.extends_generic) {
                        Some(bid) => hops > 0 && derives_ueobject(u, bid, (hops - 1) as nat),
                        None => false,
                    }
                }
            },
        }
    }
}

/// Whether `id` derives, directly or through its bases, from
/// `UnityEngine.MonoBehaviour`, walking at most `hops` base types.
pub open spec fn derives_mono(u: Seq<Assembly>, id: TypeId, hops: nat) -> bool
    decreases hops,
{
    let d = tdef(u, id);
    if d.interface {
        false
    } else {
        match d.extends {
            None => false,
            Some(ts) => {
                let b = ts.full_name@;
                if b == "UnityEngine.MonoBehaviour"@ {
                    true
                } else if base_stop(b) {
                    false
                } else {
                    match user_def(u, id.0, ts, d.extends_generic) {
                        Some(bid) => hops > 0 && derives_mono(u, bid, (hops - 1) as nat),
                        None => false,
                    }
                }
            },
        }
    }
}

/// The number of type definitions in the first `n` assemblies, saturating at `usize::MAX`.
pub open spec fn count_types(u: Seq<Assembly>, n: nat) -> usize
    decreases n,
{
    if n == 0 || n > u.len() {
        0
    } else {
        count_types(u, (n - 1) as nat).saturating_add(u[n - 1].types@.len() as usize)
    }
}

/// The bound on base-type walks: the number of loaded types, as many as
/// any acyclic inheritance chain can need.
pub open spec fn chain_bound(u: Seq<Assembly>) -> nat {
    count_types(u, u.len()) as nat
}

/// The bound on nested type loads: `(c + 2) * (c + 14)` for `c` loaded
/// types, and `2^30` from `c = 0x7000` on. Below that cap it never cuts a
/// reading short on metadata without cycles
/// ([`law_budget_suffices_without_cycles`]); a reading that would go deeper,
/// as a cycle in the metadata does, gets no fields there.
pub open spec fn fuel_for(u: Seq<Assembly>) -> nat {
    let c = count_types(u, u.len()) as nat;
    if c >= 0x7000 {
        0x4000_0000
    } else {
        (c + 2) * (c + 14)
    }
}

/// The inheritance chain bound for `u`.
pub fn chain_limit(u: &Vec<Assembly>) -> (r: usize)
    ensures
        r == count_types(u@, u@.len()),
{
    let mut total: usize = 0;
    for i in 0..u.len()
        invariant
            total == count_types(u@, i as nat),
    {
        total = total.saturating_add(u[i].types.len());
    }
    total
}

pub fn fuel_limit(u: &Vec<Assembly>) -> (r: u64)
    ensures
        r == fuel_for(u@),
        r <= 0x4000_0000,
{
    let c = chain_limit(u) as u64;
    if c >= 0x7000 {
        0x4000_0000
    } else {
        assert((c + 2) * (c + 14) <= 0x4000_0000) by (nonlinear_arith)
            requires
                c < 0x7000,
        ;
        (c + 2) * (c + 14)
    }
}

/// The base type whose inherited fields are read before those of `id`: none
/// at a stop type or at a base that cannot be resolved.
pub open spec fn inherited_base_spec(u: Seq<Assembly>, id: TypeId) -> Option<TypeId> {
    match tdef(u, id).extends {
        None => None,
        Some(ts) => if base_stop(ts.full_name@) {
            None
        } else {
            user_def(u, id.0, ts, tdef(u, id).extends_generic)
        },
    }
}

/// The classification of a field's element type.
pub struct ClassModel {
    pub ty: Seq<char>,
    pub primitive: bool,
    pub derives_ueobject: bool,
    pub children: Seq<Field>,
}

pub open spec fn class_leaf(ty: Seq<char>, primitive: bool) -> ClassModel {
    ClassModel { ty, primitive, derives_ueobject: false, children: Seq::empty() }
}

/// Whether the field `fi` of `id` is serialized at nesting depth `d`.
pub open spec fn acceptable(u: Seq<Assembly>, v: UnityVersion, id: TypeId, fi: int, d: int) -> bool {
    let f = tdef(u, id).fields@[fi];
    let hops = chain_bound(u);
    if !(f.public || has_attr(f, "UnityEngine.SerializeField"@) || has_attr(f, "UnityEngine.SerializeReference"@)) {
        false
    } else if f.static_member || f.not_serialized || f.init_only || f.literal {
        false
    } else {
        match collection_elem(f.ty) {
            Some(elem) => if d < 0 {
                false
            } else if collection_elem(elem) is Some {
                false
            } else {
                valid_def(u, v, id.0, f, elem, d)
            },
            None => if user_def_of(u, id.0, f.ty) == Some(id) && !derives_ueobject(u, id, hops) {
                false
            } else {
                valid_def(u, v, id.0, f, f.ty, d)
            },
        }
    }
}

/// Whether a field `f` (declared in assembly `a`) whose (element) type is `m`
/// is serialized at nesting depth `d`.
pub open spec fn valid_def(u: Seq<Assembly>, v: UnityVersion, a: usize, f: FieldDef, m: MemberType, d: int) -> bool {
    if m is Primitive || m is Str {
        true
    } else {
        match user_def_of(u, a, m) {
            None => false,
            Some(t) => {
                let def = tdef(u, t);
                let full = def.full_name@;
                if def.generic_params > 0 && v.major < 2020 {
                    false
                } else if enum_under(u, t) is Some {
                    enum_under(u, t) != Some("System.Int64"@) && enum_under(u, t) != Some("System.UInt64"@)
                } else if d < 0 {
                    value_type(u, t) && (def.serializable || special_unity_type(full))
                } else if derives_ueobject(u, t, chain_bound(u)) || special_unity_type(full) {
                    true
                } else if has_attr(f, "UnityEngine.SerializeReference"@) {
                    !value_type(u, t) && def.generic_params == 0
                } else if blacklisted(u[t.0 as int].name@) {
                    false
                } else {
                    !def.abstract_type && def.serializable
                }
            },
        }
    }
}

/// The indices of the serialized fields among the first `n` fields of `id`, in order.
pub open spec fn acceptable_upto(u: Seq<Assembly>, v: UnityVersion, id: TypeId, d: int, n: nat) -> Seq<usize>
    decreases n,
{
    if n == 0 {
        Seq::empty()
    } else {
        let p = acceptable_upto(u, v, id, d, (n - 1) as nat);
        if acceptable(u, v, id, n - 1, d) {
            p.push((n - 1) as usize)
        } else {
            p
        }
    }
}

pub open spec fn acceptable_list(u: Seq<Assembly>, v: UnityVersion, id: TypeId, d: int) -> Seq<usize> {
    acceptable_upto(u, v, id, d, tdef(u, id).fields@.len())
}

/// The fields read for `id` (inherited ones first) and whether a managed
/// reference was met, at available depth `avail`, within `fuel` nested loads.
pub open spec fn load(u: Seq<Assembly>, v: UnityVersion, id: TypeId, avail: int, is_rec: bool, fuel: nat) -> (Seq<Field>, bool)
    decreases fuel, 3int, 0nat,
{
    if fuel == 0 || !valid_id(u, id) {
        (Seq::empty(), false)
    } else {
        let d = if is_rec {
            avail
        } else {
            avail - 1
        };
        let b = match inherited_base_spec(u, id) {
            Some(bid) => load(u, v, bid, d, true, (fuel - 1) as nat),
            None => (Seq::empty(), false),
        };
        let l = acceptable_list(u, v, id, d);
        let r = read_list(u, v, id, d, (fuel - 1) as nat, l, l.len());
        (b.0 + r.0, b.1 || r.1)
    }
}

/// The nodes of the first `n` fields of the list `l` of field indices of `id`.
pub open spec fn read_list(u: Seq<Assembly>, v: UnityVersion, id: TypeId, d: int, fuel: nat, l: Seq<usize>, n: nat) -> (Seq<Field>, bool)
    decreases fuel, 2int, n,
{
    if n == 0 || n > l.len() {
        (Seq::empty(), false)
    } else {
        let p = read_list(u, v, id, d, fuel, l, (n - 1) as nat);
        let f = field_node(u, v, id, l[n - 1] as int, d, fuel);
        (p.0.push(f.0), p.1 || f.1)
    }
}

/// The node of field `fi` of `id`: arrays and lists become `vector`s.
pub open spec fn field_node(u: Seq<Assembly>, v: UnityVersion, id: TypeId, fi: int, d: int, fuel: nat) -> (Field, bool)
    decreases fuel, 1int, 0nat,
{
    let f = tdef(u, id).fields@[fi];
    let (element, is_coll) = match collection_elem(f.ty) {
        Some(e) => (e, true),
        None => (f.ty, false),
    };
    let c = classify_spec(u, v, id.0, f, element, d, fuel);
    let node = fnode(f.name@, c.0.ty, aligns_by_name(c.0.ty), c.0.children);
    (if is_coll {
        if c.0.primitive || c.0.derives_ueobject {
            vector_model(node)
        } else {
            vector_with_type_model(node)
        }
    } else {
        node
    }, c.1)
}

/// How field `f` of assembly `a`, whose (element) type is `m`, is serialized.
pub open spec fn classify_spec(u: Seq<Assembly>, v: UnityVersion, a: usize, f: FieldDef, m: MemberType, d: int, fuel: nat) -> (ClassModel, bool)
    decreases fuel, 0int, 0nat,
{
    match m {
        MemberType::Primitive(p) => (class_leaf(prim_name(p), true), false),
        MemberType::Str => (ClassModel { ty: "string"@, primitive: false, derives_ueobject: false, children: string_children_model() }, false),
        _ => match user_def_of(u, a, m) {
            None => (class_leaf(Seq::empty(), false), false),
            Some(t) => {
                let def = tdef(u, t);
                match enum_under(u, t) {
                    Some(under) => (class_leaf(
                        match base_to_primitive(under) {
                            Some(s) => s,
                            None => "int"@,
                        },
                        true,
                    ), false),
                    None => if derives_ueobject(u, t, chain_bound(u)) {
                        (ClassModel {
                            ty: "PPtr<$"@ + def.name@ + ">"@,
                            primitive: false,
                            derives_ueobject: true,
                            children: pptr_children_model(v),
                        }, false)
                    } else if has_attr(f, "UnityEngine.SerializeReference"@) {
                        (ClassModel {
                            ty: "managedReference"@,
                            primitive: false,
                            derives_ueobject: false,
                            children: managed_reference_children_model(v),
                        }, true)
                    } else {
                        let s = if fuel == 0 {
                            (Seq::empty(), false)
                        } else {
                            load(u, v, t, d, false, (fuel - 1) as nat)
                        };
                        let children = if special_unity_type(def.full_name@) {
                            match special_unity_children_model(def.name@, v) {
                                Some(c) => (c, false),
                                None => s,
                            }
                        } else if def.serializable {
                            s
                        } else {
                            (Seq::empty(), false)
                        };
                        (ClassModel { ty: def.name@, primitive: false, derives_ueobject: false, children: children.0 }, children.1)
                    },
                }
            },
        },
    }
}

/// The definition that the top-level lookup of `ns.name` in assembly `a`
/// finds: a type of `a` itself, or else the type it forwards to another assembly.
pub open spec fn lookup_spec(u: Seq<Assembly>, a: usize, ns: Seq<char>, name: Seq<char>) -> Option<TypeId> {
    if a >= u.len() {
        None
    } else {
        match first_top_level(u[a as int].types@, ns, name, 0) {
            Some(t) => Some((a, t as usize)),
            None => match first_forwarder(u[a as int].forwarders@, ns, name, 0) {
                Some(f) => resolve_in(u, u[a as int].forwarders@[f].assembly@, ns, name, u.len()),
                None => None,
            },
        }
    }
}

/// The template tree of top-level type `ns.name` looked up in assembly `a`,
/// or `None` when the lookup finds no definition.
pub open spec fn read_spec(u: Seq<Assembly>, v: UnityVersion, a: usize, ns: Seq<char>, name: Seq<char>) -> Option<Seq<Field>> {
    match lookup_spec(u, a, ns, name) {
        None => None,
        Some(id) => {
            let (c, m) = load(u, v, id, serialization_limit_spec(v) as int, true, fuel_for(u));
            Some(if m {
                c.push(managed_references_registry_model("references"@, v))
            } else {
                c
            })
        },
    }
}

// --- the assemblies each reading needs ---
//
// Each function below gives the names of the assemblies that the reading of
// the same name resolves a type in and finds not loaded: those that must be
// loaded before its answer can change.

pub open spec fn derives_ueobject_needs(u: Seq<Assembly>, id: TypeId, hops: nat) -> Set<Seq<char>>
    decreases hops,
{
    let d = tdef(u, id);
    if d.interface || d.full_name@ == "UnityEngine.Object"@ {
        Set::empty()
    } else {
        match d.extends {
            None => Set::empty(),
            Some(ts) => {
                let b = ts.full_name@;
                if b == "UnityEngine.Object"@ || b == "System.Object"@ {
                    Set::empty()
                } else {
                    user_def_needs(u, id.0, ts, d.extends_generic).union(
                        match user_def(u, id.0, ts, d.extends_generic) {
                            Some(bid) => if hops > 0 {
                                derives_ueobject_needs(u, bid, (hops - 1) as nat)
                            } else {
                                Set::empty()
                            },
                            None => Set::empty(),
                        },
                    )
                }
            },
        }
    }
}

pub open spec fn derives_mono_needs(u: Seq<Assembly>, id: TypeId, hops: nat) -> Set<Seq<char>>
    decreases hops,
{
    let d = tdef(u, id);
    if d.interface {
        Set::empty()
    } else {
        match d.extends {
            None => Set::empty(),
            Some(ts) => {
                let b = ts.full_name@;
                if b == "UnityEngine.MonoBehaviour"@ || base_stop(b) {
                    Set::empty()
                } else {
                    user_def_needs(u, id.0, ts, d.extends_generic).union(
                        match user_def(u, id.0, ts, d.extends_generic) {
                            Some(bid) => if hops > 0 {
                                derives_mono_needs(u, bid, (hops - 1) as nat)
                            } else {
                                Set::empty()
                            },
                            None => Set::empty(),
                        },
                    )
                }
            },
        }
    }
}

pub open spec fn inherited_base_needs(u: Seq<Assembly>, id: TypeId) -> Set<Seq<char>> {
    match tdef(u, id).extends {
        None => Set::empty(),
        Some(ts) => if base_stop(ts.full_name@) {
            Set::empty()
        } else {
            user_def_needs(u, id.0, ts, tdef(u, id).extends_generic)
        },
    }
}

pub open spec fn valid_def_needs(u: Seq<Assembly>, v: UnityVersion, a: usize, f: FieldDef, m: MemberType, d: int) -> Set<Seq<char>> {
    if m is Primitive || m is Str {
        Set::empty()
    } else {
        let n = user_def_of_needs(u, a, m);
        match user_def_of(u, a, m) {
            None => n,
            Some(t) => if (tdef(u, t).generic_params > 0 && v.major < 2020) || enum_under(u, t) is Some || d < 0 {
                n
            } else {
                n.union(derives_ueobject_needs(u, t, chain_bound(u)))
            },
        }
    }
}

pub open spec fn acceptable_needs(u: Seq<Assembly>, v: UnityVersion, id: TypeId, fi: int, d: int) -> Set<Seq<char>> {
    let f = tdef(u, id).fields@[fi];
    let hops = chain_bound(u);
    if !(f.public || has_attr(f, "UnityEngine.SerializeField"@) || has_attr(f, "UnityEngine.SerializeReference"@)) {
        Set::empty()
    } else if f.static_member || f.not_serialized || f.init_only || f.literal {
        Set::empty()
    } else {
        match collection_elem(f.ty) {
            Some(elem) => if d < 0 || collection_elem(elem) is Some {
                Set::empty()
            } else {
                valid_def_needs(u, v, id.0, f, elem, d)
            },
            None => {
                let own = user_def_of_needs(u, id.0, f.ty);
                if user_def_of(u, id.0, f.ty) == Some(id) {
                    let n = own.union(derives_ueobject_needs(u, id, hops));
                    if derives_ueobject(u, id, hops) {
                        n.union(valid_def_needs(u, v, id.0, f, f.ty, d))
                    } else {
                        n
                    }
                } else {
                    own.union(valid_def_needs(u, v, id.0, f, f.ty, d))
                }
            },
        }
    }
}

pub open spec fn acceptable_upto_needs(u: Seq<Assembly>, v: UnityVersion, id: TypeId, d: int, n: nat) -> Set<Seq<char>>
    decreases n,
{
    if n == 0 {
        Set::empty()
    } else {
        acceptable_upto_needs(u, v, id, d, (n - 1) as nat).union(acceptable_needs(u, v, id, n - 1, d))
    }
}

pub open spec fn acceptable_list_needs(u: Seq<Assembly>, v: UnityVersion, id: TypeId, d: int) -> Set<Seq<char>> {
    acceptable_upto_needs(u, v, id, d, tdef(u, id).fields@.len())
}

pub open spec fn load_needs(u: Seq<Assembly>, v: UnityVersion, id: TypeId, avail: int, is_rec: bool, fuel: nat) -> Set<Seq<char>>
    decreases fuel, 3int, 0nat,
{
    if fuel == 0 || !valid_id(u, id) {
        Set::empty()
    } else {
        let d = if is_rec {
            avail
        } else {
            avail - 1
        };
        let b = match inherited_base_spec(u, id) {
            Some(bid) => load_needs(u, v, bid, d, true, (fuel - 1) as nat),
            None => Set::empty(),
        };
        let l = acceptable_list(u, v, id, d);
        inherited_base_needs(u, id).union(b).union(acceptable_list_needs(u, v, id, d)).union(
            read_list_needs(u, v, id, d, (fuel - 1) as nat, l, l.len()),
        )
    }
}

pub open spec fn read_list_needs(u: Seq<Assembly>, v: UnityVersion, id: TypeId, d: int, fuel: nat, l: Seq<usize>, n: nat) -> Set<Seq<char>>
    decreases fuel, 2int, n,
{
    if n == 0 || n > l.len() {
        Set::empty()
    } else {
        read_list_needs(u, v, id, d, fuel, l, (n - 1) as nat).union(field_node_needs(u, v, id, l[n - 1] as int, d, fuel))
    }
}

pub open spec fn field_node_needs(u: Seq<Assembly>, v: UnityVersion, id: TypeId, fi: int, d: int, fuel: nat) -> Set<Seq<char>>
    decreases fuel, 1int, 0nat,
{
    let f = tdef(u, id).fields@[fi];
    let element = match collection_elem(f.ty) {
        Some(e) => e,
        None => f.ty,
    };
    classify_needs(u, v, id.0, f, element, d, fuel)
}

pub open spec fn classify_needs(u: Seq<Assembly>, v: UnityVersion, a: usize, f: FieldDef, m: MemberType, d: int, fuel: nat) -> Set<Seq<char>>
    decreases fuel, 0int, 0nat,
{
    if m is Primitive || m is Str {
        Set::empty()
    } else {
        let n1 = user_def_of_needs(u, a, m);
        match user_def_of(u, a, m) {
            None => n1,
            Some(t) => if enum_under(u, t) is Some {
                n1
            } else {
                let def = tdef(u, t);
                let n2 = n1.union(derives_ueobject_needs(u, t, chain_bound(u)));
                let s = if fuel == 0 {
                    Set::empty()
                } else {
                    load_needs(u, v, t, d, false, (fuel - 1) as nat)
                };
                if derives_ueobject(u, t, chain_bound(u)) || has_attr(f, "UnityEngine.SerializeReference"@) {
                    n2
                } else if special_unity_type(def.full_name@) {
                    match special_unity_children_model(def.name@, v) {
                        Some(c) => n2,
                        None => n2.union(s),
                    }
                } else if def.serializable {
                    n2.union(s)
                } else {
                    n2
                }
            },
        }
    }
}

pub open spec fn lookup_needs(u: Seq<Assembly>, a: usize, ns: Seq<char>, name: Seq<char>) -> Set<Seq<char>> {
    if a >= u.len() {
        Set::empty()
    } else {
        match first_top_level(u[a as int].types@, ns, name, 0) {
            Some(t) => Set::empty(),
            None => match first_forwarder(u[a as int].forwarders@, ns, name, 0) {
                Some(f) => resolve_in_needs(u, u[a as int].forwarders@[f].assembly@, ns, name, u.len()),
                None => Set::empty(),
            },
        }
    }
}

/// The names of the assemblies that reading the tree of `ns.name` from
/// assembly `a` resolves a type in and finds not loaded.
pub open spec fn read_needs(u: Seq<Assembly>, v: UnityVersion, a: usize, ns: Seq<char>, name: Seq<char>) -> Set<Seq<char>> {
    lookup_needs(u, a, ns, name).union(
        match lookup_spec(u, a, ns, name) {
            None => Set::empty(),
            Some(id) => load_needs(u, v, id, serialization_limit_spec(v) as int, true, fuel_for(u)),
        },
    )
}

/// The classification of a field's element type: its type-tree name, whether
/// it is a primitive, whether it derives from `UnityEngine.Object`, and its children.
pub struct Classified {
    pub ty: String,
    pub primitive: bool,
    pub derives_ueobject: bool,
    pub children: Vec<TemplateField>,
}

impl View for Classified {
    type V = ClassModel;

    open spec fn view(&self) -> ClassModel {
        ClassModel {
            ty: self.ty@,
            primitive: self.primitive,
            derives_ueobject: self.derives_ueobject,
            children: models(self.children@),
        }
    }
}

impl Classified {
    pub fn leaf(ty: String, primitive: bool, derives_ueobject: bool) -> (r: Classified)
        ensures
            r@ == (ClassModel { ty: ty@, primitive, derives_ueobject, children: Seq::empty() }),
    {
        let children: Vec<TemplateField> = Vec::new();
        assert(models(children@) =~= Seq::<Field>::empty());
        Classified { ty, primitive, derives_ueobject, children }
    }
}

/// Type-tree generation over a list of loaded assemblies for one Unity version.
pub struct Generator<'a> {
    pub universe: &'a Vec<Assembly>,
    pub version: UnityVersion,
}

/// The element type of `List<T>`.
pub fn list_element(member: &MemberType) -> (r: Option<&MemberType>)
    ensures
        match r {
            Some(e) => list_elem(*member) == Some(*e),
            None => list_elem(*member) is None,
        },
{
    match member {
        MemberType::Generic(base, params) => {
            if text_eq(base.full_name.as_str(), "System.Collections.Generic.List`1") && params.len() > 0 {
                Some(&params[0])
            } else {
                None
            }
        },
        _ => None,
    }
}

/// The element type of an array or a `List<T>`.
pub fn collection_element(member: &MemberType) -> (r: Option<&MemberType>)
    ensures
        match r {
            Some(e) => collection_elem(*member) == Some(*e),
            None => collection_elem(*member) is None,
        },
{
    match vector_element(member) {
        Some(e) => Some(e),
        None => list_element(member),
    }
}

pub fn field_has_attr(field: &FieldDef, full_name: &str) -> (r: bool)
    ensures
        r == has_attr(*field, full_name@),
{
    let n = field.attributes.len();
    for i in 0..n
        invariant
            n == field.attributes@.len(),
            forall|j: int| 0 <= j < i ==> (#[trigger] field.attributes@[j])@ != full_name@,
    {
        if text_eq(field.attributes[i].as_str(), full_name) {
            return true;
        }
    }
    false
}

pub fn field_has_serialize_reference(field: &FieldDef) -> (r: bool)
    ensures
        r == has_attr(*field, "UnityEngine.SerializeReference"@),
{
    field_has_attr(field, "UnityEngine.SerializeReference")
}

impl<'a> Generator<'a> {
    pub open spec fn u(&self) -> Seq<Assembly> {
        self.universe@
    }

    /// The full name of the base type of `id`.
    pub fn base_full_name(&self, id: TypeId) -> (r: Option<&str>)
        requires
            valid_id(self.u(), id),
        ensures
            match r {
                Some(s) => base_name(self.u(), id) == Some(s@),
                None => base_name(self.u(), id) is None,
            },
    {
        match &self.universe[id.0].types[id.1].extends {
            Some(ts) => Some(ts.full_name.as_str()),
            None => None,
        }
    }

    pub fn is_value_type(&self, id: TypeId) -> (r: bool)
        requires
            valid_id(self.u(), id),
        ensures
            r == value_type(self.u(), id),
    {
        match self.base_full_name(id) {
            Some(b) => text_eq(b, "System.ValueType") || text_eq(b, "System.Enum"),
            None => false,
        }
    }

    /// `Some(underlying .NET full name)` if `id` is an enum, else `None`.
    pub fn enum_underlying(&self, id: TypeId) -> (r: Option<String>)
        requires
            valid_id(self.u(), id),
        ensures
            match r {
                Some(s) => enum_under(self.u(), id) == Some(s@),
                None => enum_under(self.u(), id) is None,
            },
    {
        let is_enum = match self.base_full_name(id) {
            Some(b) => text_eq(b, "System.Enum"),
            None => false,
        };
        if !is_enum {
            return None;
        }
        let fields = &self.universe[id.0].types[id.1].fields;
        let n = fields.len();
        let mut i: usize = 0;
        while i < n
            invariant
                n == fields@.len(),
                i <= n,
                fields@ == tdef(self.u(), id).fields@,
                base_name(self.u(), id) == Some("System.Enum"@),
                first_value_field(fields@, 0) == first_value_field(fields@, i as int),
            decreases n - i,
        {
            if text_eq(fields[i].name.as_str(), "value__") {
                return base_primitive_full_name(&fields[i].ty);
            }
            i = i + 1;
        }
        None
    }

    /// Whether `id` derives from `UnityEngine.Object`.
    pub fn derives_from_ueobject(&self, id: TypeId, hops: usize, missing: &mut Vec<String>) -> (r: bool)
        requires
            valid_id(self.u(), id),
        ensures
            r == derives_ueobject(self.u(), id, hops as nat),
            records(old(missing)@, final(missing)@, derives_ueobject_needs(self.u(), id, hops as nat)),
        decreases hops,
    {
        proof {
            lemma_records_none(missing@);
        }
        let def = &self.universe[id.0].types[id.1];
        if def.interface {
            return false;
        }
        if text_eq(def.full_name.as_str(), "UnityEngine.Object") {
            return true;
        }
        match &def.extends {
            None => false,
            Some(ts) => {
                let b = ts.full_name.as_str();
                if text_eq(b, "UnityEngine.Object") {
                    true
                } else if text_eq(b, "System.Object") {
                    false
                } else {
                    let ghost start = missing@;
                    let found = user_definition(self.universe, id.0, ts, def.extends_generic, missing);
                    let ghost mid = missing@;
                    let ghost n1 = user_def_needs(self.u(), id.0, *ts, def.extends_generic);
                    match found {
                        Some(bid) => {
                            if hops == 0 {
                                assert(n1.union(Set::empty()) =~= n1);
                                false
                            } else {
                                let r = self.derives_from_ueobject(bid, hops - 1, missing);
                                proof {
                                    lemma_records_trans(start, mid, missing@, n1, derives_ueobject_needs(self.u(), bid, (hops - 1) as nat));
                                }
                                r
                            }
                        },
                        None => {
                            assert(n1.union(Set::empty()) =~= n1);
                            false
                        },
                    }
                }
            },
        }
    }

    /// Whether `id` derives, directly or transitively, from `UnityEngine.MonoBehaviour`.
    pub fn derives_from_monobehaviour(&self, id: TypeId, hops: usize, missing: &mut Vec<String>) -> (r: bool)
        requires
            valid_id(self.u(), id),
        ensures
            r == derives_mono(self.u(), id, hops as nat),
            records(old(missing)@, final(missing)@, derives_mono_needs(self.u(), id, hops as nat)),
        decreases hops,
    {
        proof {
            lemma_records_none(missing@);
        }
        let def = &self.universe[id.0].types[id.1];
        if def.interface {
            return false;
        }
        match &def.extends {
            None => false,
            Some(ts) => {
                let b = ts.full_name.as_str();
                if text_eq(b, "UnityEngine.MonoBehaviour") {
                    true
                } else if is_base_stop(b) {
                    false
                } else {
                    let ghost start = missing@;
                    let found = user_definition(self.universe, id.0, ts, def.extends_generic, missing);
                    let ghost mid = missing@;
                    let ghost n1 = user_def_needs(self.u(), id.0, *ts, def.extends_generic);
                    match found {
                        Some(bid) => {
                            if hops == 0 {
                                assert(n1.union(Set::empty()) =~= n1);
                                false
                            } else {
                                let r = self.derives_from_monobehaviour(bid, hops - 1, missing);
                                proof {
                                    lemma_records_trans(start, mid, missing@, n1, derives_mono_needs(self.u(), bid, (hops - 1) as nat));
                                }
                                r
                            }
                        },
                        None => {
                            assert(n1.union(Set::empty()) =~= n1);
                            false
                        },
                    }
                }
            },
        }
    }

    /// The base type to read inherited fields from, or `None` at a stop type or
    /// an unresolvable base.
    pub fn inherited_base(&self, id: TypeId, missing: &mut Vec<String>) -> (r: Option<TypeId>)
        requires
            valid_id(self.u(), id),
        ensures
            r == inherited_base_spec(self.u(), id),
            r matches Some(b) ==> valid_id(self.u(), b),
            records(old(missing)@, final(missing)@, inherited_base_needs(self.u(), id)),
    {
        proof {
            lemma_records_none(missing@);
        }
        let def = &self.universe[id.0].types[id.1];
        match &def.extends {
            None => None,
            Some(ts) => {
                if is_base_stop(ts.full_name.as_str()) {
                    None
                } else {
                    user_definition(self.universe, id.0, ts, def.extends_generic, missing)
                }
            },
        }
    }

    /// The name of the assembly that defines `id`.
    pub fn assembly_name(&self, id: TypeId) -> (r: &str)
        requires
            valid_id(self.u(), id),
        ensures
            r@ == self.u()[id.0 as int].name@,
    {
        self.universe[id.0].name.as_str()
    }

    /// Whether field `field` of assembly `a`, whose (element) type is
    /// `member`, is serialized at depth `available_depth`.
    pub fn is_valid_def(&self, a: usize, field: &FieldDef, member: &MemberType, available_depth: i32, missing: &mut Vec<String>) -> (r: bool)
        ensures
            r == valid_def(self.u(), self.version, a, *field, *member, available_depth as int),
            records(old(missing)@, final(missing)@, valid_def_needs(self.u(), self.version, a, *field, *member, available_depth as int)),
    {
        proof {
            lemma_records_none(missing@);
        }
        if base_primitive_name(member).is_some() || is_string(member) {
            return true;
        }
        let tidx = match user_definition_of(self.universe, a, member, missing) {
            Some(t) => t,
            None => return false,
        };
        let ghost n1 = user_def_of_needs(self.u(), a, *member);
        let def = &self.universe[tidx.0].types[tidx.1];
        if def.generic_params > 0 && self.version.major < 2020 {
            return false;
        }
        match self.enum_underlying(tidx) {
            Some(under) => {
                return !text_eq(under.as_str(), "System.Int64") && !text_eq(under.as_str(), "System.UInt64");
            },
            None => {},
        }
        let full = def.full_name.as_str();
        if available_depth < 0 {
            return self.is_value_type(tidx) && (def.serializable || is_special_unity_type(full));
        }
        let ghost mid = missing@;
        let hops = chain_limit(self.universe);
        let derives = self.derives_from_ueobject(tidx, hops, missing);
        proof {
            lemma_records_trans(old(missing)@, mid, missing@, n1, derives_ueobject_needs(self.u(), tidx, chain_bound(self.u())));
        }
        if derives || is_special_unity_type(full) {
            return true;
        }
        if field_has_serialize_reference(field) {
            return !self.is_value_type(tidx) && def.generic_params == 0;
        }
        if is_assembly_blacklisted(self.assembly_name(tidx)) {
            return false;
        }
        !def.abstract_type && def.serializable
    }

    /// Indices of the fields of `id` serialized at depth `available_depth`, in order.
    pub fn acceptable_fields(&self, id: TypeId, available_depth: i32, missing: &mut Vec<String>) -> (r: Vec<usize>)
        requires
            valid_id(self.u(), id),
        ensures
            r@ == acceptable_list(self.u(), self.version, id, available_depth as int),
            records(old(missing)@, final(missing)@, acceptable_list_needs(self.u(), self.version, id, available_depth as int)),
    {
        let ghost u = self.u();
        let ghost v = self.version;
        let ghost d = available_depth as int;
        let ghost start = missing@;
        let fields = &self.universe[id.0].types[id.1].fields;
        let n = fields.len();
        let mut valid: Vec<usize> = Vec::new();
        let hops = chain_limit(self.universe);
        proof {
            lemma_records_none(start);
        }
        for fi in 0..n
            invariant
                u == self.u(),
                v == self.version,
                d == available_depth as int,
                valid_id(u, id),
                n == fields@.len(),
                fields@ == tdef(u, id).fields@,
                hops == chain_bound(u),
                valid@ == acceptable_upto(u, v, id, d, fi as nat),
                records(start, missing@, acceptable_upto_needs(u, v, id, d, fi as nat)),
        {
            let field = &fields[fi];
            let ghost before = missing@;
            let ghost f = tdef(u, id).fields@[fi as int];
            proof {
                lemma_records_none(before);
            }
            let is_public = field.public;
            let has_serialize_attr = field_has_attr(field, "UnityEngine.SerializeField") || field_has_attr(
                field,
                "UnityEngine.SerializeReference",
            );
            let ok = if !(is_public || has_serialize_attr) {
                false
            } else if field.static_member || field.not_serialized || field.init_only || field.literal {
                false
            } else {
                match collection_element(&field.ty) {
                    Some(elem) => {
                        if available_depth < 0 {
                            false
                        } else if collection_element(elem).is_some() {
                            false
                        } else {
                            self.is_valid_def(id.0, field, elem, available_depth, missing)
                        }
                    },
                    None => {
                        let own = user_definition_of(self.universe, id.0, &field.ty, missing);
                        let ghost n1 = user_def_of_needs(u, id.0, f.ty);
                        let is_self = match own {
                            Some(o) => o.0 == id.0 && o.1 == id.1,
                            None => false,
                        };
                        let ghost m1 = missing@;
                        let skip = is_self && !self.derives_from_ueobject(id, hops, missing);
                        let ghost m2 = missing@;
                        let ghost n2 = if is_self {
                            n1.union(derives_ueobject_needs(u, id, hops as nat))
                        } else {
                            n1
                        };
                        proof {
                            if is_self {
                                lemma_records_trans(before, m1, m2, n1, derives_ueobject_needs(u, id, hops as nat));
                            }
                        }
                        if skip {
                            false
                        } else {
                            let r = self.is_valid_def(id.0, field, &field.ty, available_depth, missing);
                            proof {
                                lemma_records_trans(before, m2, missing@, n2, valid_def_needs(u, v, id.0, f, f.ty, d));
                            }
                            r
                        }
                    },
                }
            };
            proof {
                let x = acceptable_needs(u, v, id, fi as int, d);
                assert(records(before, missing@, x));
                lemma_records_trans(start, before, missing@, acceptable_upto_needs(u, v, id, d, fi as nat), x);
            }
            if ok {
                valid.push(fi);
            }
        }
        valid
    }
}


proof fn lemma_acceptable_range(u: Seq<Assembly>, v: UnityVersion, id: TypeId, d: int, n: nat)
    ensures
        forall|k: int| 0 <= k < acceptable_upto(u, v, id, d, n).len() ==> (#[trigger] acceptable_upto(u, v, id, d, n)[k]) < n,
    decreases n,
{
    if n > 0 {
        lemma_acceptable_range(u, v, id, d, (n - 1) as nat);
        let p = acceptable_upto(u, v, id, d, (n - 1) as nat);
        let q = acceptable_upto(u, v, id, d, n);
        assert forall|k: int| 0 <= k < q.len() implies (#[trigger] q[k]) < n by {
            if k < p.len() {
                assert(q[k] == p[k]);
            }
        }
    }
}

impl<'a> Generator<'a> {
    /// How field `field` of assembly `a`, whose (element) type is `element`, is
    /// serialized; the flag tells whether it is a managed reference.
    pub fn classify(&self, a: usize, field: &FieldDef, element: &MemberType, available_depth: i32, fuel: u64, missing: &mut Vec<String>) -> (r: (Classified, bool))
        requires
            available_depth as int > i32::MIN as int + fuel as int,
        ensures
            r.0@ == classify_spec(self.u(), self.version, a, *field, *element, available_depth as int, fuel as nat).0,
            r.1 == classify_spec(self.u(), self.version, a, *field, *element, available_depth as int, fuel as nat).1,
            records(old(missing)@, final(missing)@, classify_needs(self.u(), self.version, a, *field, *element, available_depth as int, fuel as nat)),
        decreases fuel, 1int,
    {
        let ghost u = self.u();
        proof {
            lemma_records_none(missing@);
        }
        if let Some(name) = base_primitive_name(element) {
            return (Classified::leaf(owned(name), true, false), false);
        }
        if is_string(element) {
            let c = Classified { ty: owned("string"), primitive: false, derives_ueobject: false, children: string_children() };
            return (c, false);
        }
        let tidx = match user_definition_of(self.universe, a, element, missing) {
            Some(t) => t,
            None => return (Classified::leaf(String::new(), false, false), false),
        };
        let ghost m1 = missing@;
        let ghost n1 = user_def_of_needs(u, a, *element);
        let def = &self.universe[tidx.0].types[tidx.1];
        if let Some(under) = self.enum_underlying(tidx) {
            let ty = match convert_base_to_primitive(under.as_str()) {
                Some(t) => t,
                None => "int",
            };
            return (Classified::leaf(owned(ty), true, false), false);
        }
        let hops = chain_limit(self.universe);
        let derives = self.derives_from_ueobject(tidx, hops, missing);
        let ghost m2 = missing@;
        let ghost n2 = n1.union(derives_ueobject_needs(u, tidx, chain_bound(u)));
        proof {
            lemma_records_trans(old(missing)@, m1, m2, n1, derives_ueobject_needs(u, tidx, chain_bound(u)));
            lemma_records_none(m2);
        }
        if derives {
            let mut ty = joined("PPtr<$", def.name.as_str());
            ty.append(">");
            let c = Classified { ty, primitive: false, derives_ueobject: true, children: pptr_children(&self.version) };
            return (c, false);
        }
        if field_has_serialize_reference(field) {
            let c = Classified {
                ty: owned("managedReference"),
                primitive: false,
                derives_ueobject: false,
                children: managed_reference_children(&self.version),
            };
            return (c, true);
        }
        let full = def.full_name.as_str();
        let ty = copy_text(&def.name);
        let ghost sn = if fuel == 0 {
            Set::empty()
        } else {
            load_needs(u, self.version, tidx, available_depth as int, false, (fuel - 1) as nat)
        };
        let children = if is_special_unity_type(full) {
            match special_unity_children(def.name.as_str(), &self.version) {
                Some(c) => (c, false),
                None => {
                    let r = self.serialized(tidx, available_depth, fuel, missing);
                    proof {
                        lemma_records_trans(old(missing)@, m2, missing@, n2, sn);
                    }
                    r
                },
            }
        } else if def.serializable {
            let r = self.serialized(tidx, available_depth, fuel, missing);
            proof {
                lemma_records_trans(old(missing)@, m2, missing@, n2, sn);
            }
            r
        } else {
            let e: Vec<TemplateField> = Vec::new();
            assert(models(e@) =~= Seq::<Field>::empty());
            (e, false)
        };
        (Classified { ty, primitive: false, derives_ueobject: false, children: children.0 }, children.1)
    }

    /// The fields of `idx` read as a nested serialized type.
    pub fn serialized(&self, idx: TypeId, available_depth: i32, fuel: u64, missing: &mut Vec<String>) -> (r: (Vec<TemplateField>, bool))
        requires
            available_depth as int > i32::MIN as int + fuel as int,
        ensures
            fuel == 0 ==> models(r.0@) == Seq::<Field>::empty() && !r.1,
            fuel > 0 ==> models(r.0@) == load(self.u(), self.version, idx, available_depth as int, false, (fuel - 1) as nat).0,
            fuel > 0 ==> r.1 == load(self.u(), self.version, idx, available_depth as int, false, (fuel - 1) as nat).1,
            fuel == 0 ==> records(old(missing)@, final(missing)@, Set::empty()),
            fuel > 0 ==> records(old(missing)@, final(missing)@, load_needs(self.u(), self.version, idx, available_depth as int, false, (fuel - 1) as nat)),
        decreases fuel, 0int,
    {
        if fuel == 0 {
            proof {
                lemma_records_none(missing@);
            }
            let e: Vec<TemplateField> = Vec::new();
            assert(models(e@) =~= Seq::<Field>::empty());
            (e, false)
        } else {
            self.recursive_type_load(idx, available_depth, false, fuel - 1, missing)
        }
    }

    /// The nodes of the serialized fields of `idx` itself (not inherited ones).
    pub fn read_types(&self, idx: TypeId, available_depth: i32, fuel: u64, missing: &mut Vec<String>) -> (r: (Vec<TemplateField>, bool))
        requires
            valid_id(self.u(), idx),
            available_depth as int > i32::MIN as int + fuel as int,
        ensures
            ({
                let l = acceptable_list(self.u(), self.version, idx, available_depth as int);
                &&& models(r.0@) == read_list(self.u(), self.version, idx, available_depth as int, fuel as nat, l, l.len()).0
                &&& r.1 == read_list(self.u(), self.version, idx, available_depth as int, fuel as nat, l, l.len()).1
                &&& records(old(missing)@, final(missing)@, acceptable_list_needs(self.u(), self.version, idx, available_depth as int).union(
                    read_list_needs(self.u(), self.version, idx, available_depth as int, fuel as nat, l, l.len()),
                ))
            }),
        decreases fuel, 2int,
    {
        let ghost u = self.u();
        let ghost d = available_depth as int;
        let valid = self.acceptable_fields(idx, available_depth, missing);
        let ghost l = valid@;
        let ghost start = missing@;
        proof {
            lemma_acceptable_range(u, self.version, idx, d, tdef(u, idx).fields@.len());
            lemma_records_none(start);
        }
        let fields = &self.universe[idx.0].types[idx.1].fields;
        let mut out: Vec<TemplateField> = Vec::new();
        let mut managed = false;
        assert(models(out@) =~= Seq::<Field>::empty());
        for i in 0..valid.len()
            invariant
                u == self.u(),
                valid_id(u, idx),
                l == valid@,
                l == acceptable_list(u, self.version, idx, d),
                d == available_depth as int,
                available_depth as int > i32::MIN as int + fuel as int,
                fields@ == tdef(u, idx).fields@,
                forall|k: int| 0 <= k < l.len() ==> (#[trigger] l[k]) < fields@.len(),
                models(out@) == read_list(u, self.version, idx, d, fuel as nat, l, i as nat).0,
                managed == read_list(u, self.version, idx, d, fuel as nat, l, i as nat).1,
                records(start, missing@, read_list_needs(u, self.version, idx, d, fuel as nat, l, i as nat)),
        {
            let fi = valid[i];
            let field = &fields[fi];
            let ghost before = missing@;
            let (element, is_coll) = match collection_element(&field.ty) {
                Some(e) => (e, true),
                None => (&field.ty, false),
            };
            let (class, m) = self.classify(idx.0, field, element, available_depth, fuel, missing);
            proof {
                lemma_records_trans(start, before, missing@, read_list_needs(u, self.version, idx, d, fuel as nat, l, i as nat),
                    field_node_needs(u, self.version, idx, l[i as int] as int, d, fuel as nat));
            }
            let aligned = type_aligns_by_name(class.ty.as_str());
            let mut node = TemplateField { name: copy_text(&field.name), aligned, ty: class.ty, children: class.children };
            if is_coll {
                node = if class.primitive || class.derives_ueobject {
                    vector(node)
                } else {
                    vector_with_type(node)
                };
            }
            assert(node@ == field_node(u, self.version, idx, l[i as int] as int, d, fuel as nat).0);
            let ghost prev = out@;
            out.push(node);
            assert(out@.drop_last() =~= prev);
            managed = managed || m;
        }
        proof {
            lemma_records_trans(old(missing)@, start, missing@, acceptable_list_needs(u, self.version, idx, d),
                read_list_needs(u, self.version, idx, d, fuel as nat, l, l.len()));
        }
        (out, managed)
    }

    /// Reads the fields of `idx`, inherited ones first, at depth
    /// `available_depth` (one level deeper unless `is_recursive_call`).
    pub fn recursive_type_load(&self, idx: TypeId, available_depth: i32, is_recursive_call: bool, fuel: u64, missing: &mut Vec<String>) -> (r: (Vec<TemplateField>, bool))
        requires
            available_depth as int > i32::MIN as int + fuel as int,
        ensures
            models(r.0@) == load(self.u(), self.version, idx, available_depth as int, is_recursive_call, fuel as nat).0,
            r.1 == load(self.u(), self.version, idx, available_depth as int, is_recursive_call, fuel as nat).1,
            records(old(missing)@, final(missing)@, load_needs(self.u(), self.version, idx, available_depth as int, is_recursive_call, fuel as nat)),
        decreases fuel, 3int,
    {
        let ghost u = self.u();
        proof {
            lemma_records_none(missing@);
        }
        if fuel == 0 || !(idx.0 < self.universe.len() && idx.1 < self.universe[idx.0].types.len()) {
            let e: Vec<TemplateField> = Vec::new();
            assert(models(e@) =~= Seq::<Field>::empty());
            return (e, false);
        }
        let depth = if is_recursive_call {
            available_depth
        } else {
            available_depth - 1
        };
        let ghost v = self.version;
        let ghost d = depth as int;
        let base = self.inherited_base(idx, missing);
        let ghost m1 = missing@;
        let ghost bn = match base {
            Some(b) => load_needs(u, v, b, d, true, (fuel - 1) as nat),
            None => Set::empty(),
        };
        let (mut out, base_managed) = match base {
            Some(b) => self.recursive_type_load(b, depth, true, fuel - 1, missing),
            None => {
                proof {
                    lemma_records_none(m1);
                }
                let e: Vec<TemplateField> = Vec::new();
                assert(models(e@) =~= Seq::<Field>::empty());
                (e, false)
            },
        };
        let ghost m2 = missing@;
        let (mut own, own_managed) = self.read_types(idx, depth, fuel - 1, missing);
        proof {
            let l = acceptable_list(u, v, idx, d);
            let an = acceptable_list_needs(u, v, idx, d);
            let rn = read_list_needs(u, v, idx, d, (fuel - 1) as nat, l, l.len());
            lemma_records_trans(old(missing)@, m1, m2, inherited_base_needs(u, idx), bn);
            lemma_records_trans(old(missing)@, m2, missing@, inherited_base_needs(u, idx).union(bn), an.union(rn));
            assert(inherited_base_needs(u, idx).union(bn).union(an.union(rn)) =~= inherited_base_needs(u, idx).union(bn).union(an).union(rn));
        }
        let ghost a = out@;
        let ghost b = own@;
        out.append(&mut own);
        proof {
            crate::field::lemma_models_concat(a, b);
        }
        (out, base_managed || own_managed)
    }

    /// The definition of the top-level type `namespace.class_name` of
    /// assembly `a`, following a type forwarder of `a` to the assembly that
    /// now defines it.
    pub fn find_type(&self, a: usize, namespace: &str, class_name: &str, missing: &mut Vec<String>) -> (r: Option<TypeId>)
        ensures
            r == lookup_spec(self.u(), a, namespace@, class_name@),
            r matches Some(id) ==> valid_id(self.u(), id),
            records(old(missing)@, final(missing)@, lookup_needs(self.u(), a, namespace@, class_name@)),
    {
        proof {
            lemma_records_none(missing@);
        }
        if a >= self.universe.len() {
            return None;
        }
        match find_top_level(&self.universe[a].types, namespace, class_name) {
            Some(t) => {
                proof {
                    lemma_first_top_level_in(self.u()[a as int].types@, namespace@, class_name@, 0);
                }
                Some((a, t))
            },
            None => match find_forwarder(&self.universe[a].forwarders, namespace, class_name) {
                Some(f) => {
                    proof {
                        lemma_first_forwarder_in(self.u()[a as int].forwarders@, namespace@, class_name@, 0);
                    }
                    resolve_in_assembly(
                        self.universe,
                        self.universe[a].forwarders[f].assembly.as_str(),
                        namespace,
                        class_name,
                        self.universe.len(),
                        missing,
                    )
                },
                None => None,
            },
        }
    }

    /// The template tree of the top-level type `namespace.class_name` looked
    /// up in assembly `a`, or `None` when no definition is found. Records in
    /// `missing` the assemblies that were needed and are not loaded.
    pub fn read(universe: &'a Vec<Assembly>, a: usize, namespace: &str, class_name: &str, version: UnityVersion, missing: &mut Vec<String>) -> (r: Option<Vec<TemplateField>>)
        ensures
            opt_models(r) == read_spec(universe@, version, a, namespace@, class_name@),
            records(old(missing)@, final(missing)@, read_needs(universe@, version, a, namespace@, class_name@)),
    {
        let g = Generator { universe, version };
        let idx = match g.find_type(a, namespace, class_name, missing) {
            Some(t) => t,
            None => {
                assert(lookup_needs(universe@, a, namespace@, class_name@).union(Set::empty()) =~= lookup_needs(
                    universe@,
                    a,
                    namespace@,
                    class_name@,
                ));
                return None;
            },
        };
        let ghost m1 = missing@;
        let limit = version.serialization_limit();
        let fuel = fuel_limit(universe);
        let (mut children, managed) = g.recursive_type_load(idx, limit, true, fuel, missing);
        proof {
            lemma_records_trans(old(missing)@, m1, missing@, lookup_needs(universe@, a, namespace@, class_name@), load_needs(
                universe@,
                version,
                idx,
                limit as int,
                true,
                fuel as nat,
            ));
        }
        if managed {
            let ghost prev = children@;
            children.push(managed_references_registry("references", &version));
            assert(children@.drop_last() =~= prev);
        }
        Some(children)
    }
}


proof fn lemma_no_top_level(ts: Seq<TypeDef>, ns: Seq<char>, name: Seq<char>, i: int)
    requires
        forall|t: int| 0 <= t < ts.len() && (#[trigger] ts[t]).namespace@ == ns && ts[t].name@ == name ==> ts[t].nested,
    ensures
        first_top_level(ts, ns, name, i) is None,
    decreases ts.len() - i,
{
    if 0 <= i < ts.len() {
        lemma_no_top_level(ts, ns, name, i + 1);
    }
}

/// A type that exists only as a nested type (and is not forwarded) is not
/// found by the top-level lookup: generating it gives no tree.
pub proof fn law_nested_types_are_not_found(u: Seq<Assembly>, v: UnityVersion, a: usize, ns: Seq<char>, name: Seq<char>)
    requires
        a < u.len(),
        forall|t: int| 0 <= t < u[a as int].types@.len() && (#[trigger] u[a as int].types@[t]).namespace@ == ns
            && u[a as int].types@[t].name@ == name ==> u[a as int].types@[t].nested,
        first_forwarder(u[a as int].forwarders@, ns, name, 0) is None,
    ensures
        read_spec(u, v, a, ns, name) is None,
{
    lemma_no_top_level(u[a as int].types@, ns, name, 0);
}

/// Generating a type through an assembly that only forwards it (such as the
/// `UnityEngine` facade) gives the tree generated in the assembly that
/// defines it.
pub proof fn law_forwarded_type_reads_its_defining_assembly(u: Seq<Assembly>, v: UnityVersion, a: usize, b: usize, ns: Seq<char>, name: Seq<char>)
    requires
        a < u.len(),
        first_top_level(u[a as int].types@, ns, name, 0) is None,
        first_forwarder(u[a as int].forwarders@, ns, name, 0) matches Some(f)
            && first_assembly(u, u[a as int].forwarders@[f].assembly@, 0) == Some(b as int),
        first_top_level(u[b as int].types@, ns, name, 0) is Some,
    ensures
        read_spec(u, v, a, ns, name) == read_spec(u, v, b, ns, name),
{
    lemma_first_assembly_range(u, u[a as int].forwarders@[first_forwarder(u[a as int].forwarders@, ns, name, 0)->0].assembly@, 0);
    assert(lookup_spec(u, a, ns, name) == lookup_spec(u, b, ns, name));
}

/// When the lookup finds no definition, there is no tree.
pub proof fn law_no_definition_no_tree(u: Seq<Assembly>, v: UnityVersion, a: usize, ns: Seq<char>, name: Seq<char>)
    requires
        lookup_spec(u, a, ns, name) is None,
    ensures
        read_spec(u, v, a, ns, name) is None,
{
}

/// A found type that declares no fields and whose base is a stop type (such
/// as `MonoBehaviour`) gives an empty tree: just the root.
pub proof fn law_fieldless_type_gives_empty_tree(u: Seq<Assembly>, v: UnityVersion, a: usize, ns: Seq<char>, name: Seq<char>)
    requires
        lookup_spec(u, a, ns, name) matches Some(id) && valid_id(u, id) && tdef(u, id).fields@.len() == 0
            && inherited_base_spec(u, id) is None,
    ensures
        read_spec(u, v, a, ns, name) == Some(Seq::<Field>::empty()),
{
    let id = lookup_spec(u, a, ns, name)->0;
    let c = count_types(u, u.len()) as nat;
    if c < 0x7000 {
        assert((c + 2) * (c + 14) > 0) by (nonlinear_arith)
            requires
                c >= 0,
        ;
    }
    assert(fuel_for(u) > 0);
    let d = serialization_limit_spec(v) as int;
    let l = acceptable_list(u, v, id, d);
    assert(l.len() == 0);
    let f = (fuel_for(u) - 1) as nat;
    assert(read_list(u, v, id, d, f, l, 0) == (Seq::<Field>::empty(), false));
    let r = load(u, v, id, d, true, fuel_for(u));
    assert(r == (Seq::<Field>::empty() + Seq::<Field>::empty(), false));
    assert(r.0 =~= Seq::<Field>::empty());
}

/// Inherited fields come first: the fields read for a type are those of its
/// base, then its own serialized fields, in declaration order.
pub proof fn law_inherited_fields_first(u: Seq<Assembly>, v: UnityVersion, id: TypeId, avail: int, fuel: nat, bid: TypeId)
    requires
        fuel > 0,
        valid_id(u, id),
        inherited_base_spec(u, id) == Some(bid),
    ensures
        load(u, v, id, avail, true, fuel).0 == load(u, v, bid, avail, true, (fuel - 1) as nat).0 + read_list(
            u,
            v,
            id,
            avail,
            (fuel - 1) as nat,
            acceptable_list(u, v, id, avail),
            acceptable_list(u, v, id, avail).len(),
        ).0,
{
}

/// A base type that stops the walk (other than `MonoBehaviour` itself)
/// means the type does not derive from `MonoBehaviour`: so neither
/// `MonoBehaviour`'s own ancestors nor `ScriptableObject` types are listed.
pub proof fn law_stop_base_is_not_monobehaviour(u: Seq<Assembly>, id: TypeId, hops: nat)
    requires
        tdef(u, id).extends matches Some(ts) && base_stop(ts.full_name@) && ts.full_name@ != "UnityEngine.MonoBehaviour"@,
    ensures
        !derives_mono(u, id, hops),
{
}
// --- how far the walk up base types goes ---

/// The number of type definitions in the first `n` assemblies.
pub open spec fn type_total(u: Seq<Assembly>, n: nat) -> int
    decreases n,
{
    if n == 0 || n > u.len() {
        0
    } else {
        type_total(u, (n - 1) as nat) + u[n - 1].types@.len()
    }
}

/// The position of a type definition among all loaded ones.
pub open spec fn flat_index(u: Seq<Assembly>, id: TypeId) -> int {
    type_total(u, id.0 as nat) + id.1
}

proof fn lemma_type_total_mono(u: Seq<Assembly>, a: nat, b: nat)
    requires
        a <= b <= u.len(),
    ensures
        type_total(u, a) <= type_total(u, b),
    decreases b - a,
{
    if a < b {
        lemma_type_total_mono(u, a, (b - 1) as nat);
    }
}

proof fn lemma_count_types(u: Seq<Assembly>, n: nat)
    requires
        n <= u.len(),
        type_total(u, u.len()) <= usize::MAX,
    ensures
        count_types(u, n) == type_total(u, n),
    decreases n,
{
    if n > 0 {
        lemma_count_types(u, (n - 1) as nat);
        lemma_type_total_mono(u, n, u.len());
    }
}

proof fn lemma_flat_index(u: Seq<Assembly>, x: TypeId, y: TypeId)
    requires
        valid_id(u, x),
        valid_id(u, y),
    ensures
        0 <= flat_index(u, x) < type_total(u, u.len()),
        flat_index(u, x) == flat_index(u, y) ==> x == y,
{
    lemma_type_total_mono(u, (x.0 + 1) as nat, u.len());
    lemma_type_total_mono(u, 0, x.0 as nat);
    if x.0 < y.0 {
        lemma_type_total_mono(u, (x.0 + 1) as nat, y.0 as nat);
    } else if y.0 < x.0 {
        lemma_type_total_mono(u, (y.0 + 1) as nat, x.0 as nat);
    }
}

/// Every index of `u` fits in a `usize`.
pub open spec fn indexable(u: Seq<Assembly>) -> bool {
    u.len() <= usize::MAX && forall|j: int| 0 <= j < u.len() ==> (#[trigger] u[j]).types@.len() <= usize::MAX
}

proof fn lemma_resolve_in_valid(u: Seq<Assembly>, n: Seq<char>, ns: Seq<char>, name: Seq<char>, hops: nat)
    requires
        indexable(u),
    ensures
        resolve_in(u, n, ns, name, hops) matches Some(id) ==> valid_id(u, id),
    decreases hops,
{
    lemma_first_assembly_range(u, n, 0);
    match first_assembly(u, n, 0) {
        Some(j) => {
            lemma_first_top_level_in(u[j].types@, ns, name, 0);
            lemma_first_forwarder_in(u[j].forwarders@, ns, name, 0);
            match first_forwarder(u[j].forwarders@, ns, name, 0) {
                Some(f) => if hops > 0 {
                    lemma_resolve_in_valid(u, u[j].forwarders@[f].assembly@, ns, name, (hops - 1) as nat);
                },
                None => {},
            }
        },
        None => {},
    }
}

/// The base type that the walk for `MonoBehaviour` goes on to from `id`.
pub open spec fn mono_next(u: Seq<Assembly>, id: TypeId) -> Option<TypeId> {
    let d = tdef(u, id);
    if d.interface {
        None
    } else {
        match d.extends {
            None => None,
            Some(ts) => if ts.full_name@ == "UnityEngine.MonoBehaviour"@ || base_stop(ts.full_name@) {
                None
            } else {
                user_def(u, id.0, ts, d.extends_generic)
            },
        }
    }
}

/// The type `k` steps up that walk from `id`, if the walk gets that far.
pub open spec fn mono_walk(u: Seq<Assembly>, id: TypeId, k: nat) -> Option<TypeId>
    decreases k,
{
    if k == 0 {
        Some(id)
    } else {
        match mono_next(u, id) {
            None => None,
            Some(b) => mono_walk(u, b, (k - 1) as nat),
        }
    }
}

/// Whether the walk from `id` stops within `h` steps.
pub open spec fn walk_ends(u: Seq<Assembly>, id: TypeId, h: nat) -> bool
    decreases h,
{
    match mono_next(u, id) {
        None => true,
        Some(b) => h > 0 && walk_ends(u, b, (h - 1) as nat),
    }
}

/// The walk from `id` never meets a type twice.
pub open spec fn walk_acyclic(u: Seq<Assembly>, id: TypeId) -> bool {
    forall|i: nat, j: nat| i < j && #[trigger] mono_walk(u, id, i) is Some && #[trigger] mono_walk(u, id, j) is Some
        ==> mono_walk(u, id, i) != mono_walk(u, id, j)
}

proof fn lemma_mono_next_valid(u: Seq<Assembly>, id: TypeId)
    requires
        indexable(u),
    ensures
        mono_next(u, id) matches Some(b) ==> valid_id(u, b),
{
    let d = tdef(u, id);
    match d.extends {
        Some(ts) => match ts.target {
            crate::metadata::Target::Assembly(n) => lemma_resolve_in_valid(u, n@, ts.namespace@, ts.name@, u.len()),
            _ => {},
        },
        None => {},
    }
}

proof fn lemma_walk_valid(u: Seq<Assembly>, id: TypeId, k: nat)
    requires
        indexable(u),
        valid_id(u, id),
    ensures
        mono_walk(u, id, k) matches Some(x) ==> valid_id(u, x),
    decreases k,
{
    if k > 0 {
        lemma_mono_next_valid(u, id);
        match mono_next(u, id) {
            Some(b) => lemma_walk_valid(u, b, (k - 1) as nat),
            None => {},
        }
    }
}

proof fn lemma_walk_long(u: Seq<Assembly>, id: TypeId, h: nat)
    requires
        !walk_ends(u, id, h),
    ensures
        forall|k: nat| k <= h + 1 ==> (#[trigger] mono_walk(u, id, k)) is Some,
    decreases h,
{
    let b = mono_next(u, id)->0;
    if h > 0 {
        lemma_walk_long(u, b, (h - 1) as nat);
    }
    assert forall|k: nat| k <= h + 1 implies (#[trigger] mono_walk(u, id, k)) is Some by {
        if k > 0 {
            assert(mono_walk(u, id, k) == mono_walk(u, b, (k - 1) as nat));
            if h == 0 {
                assert(k == 1);
            }
        }
    }
}

proof fn lemma_walk_stable(u: Seq<Assembly>, id: TypeId, h: nat, h2: nat)
    requires
        walk_ends(u, id, h),
        h <= h2,
    ensures
        derives_mono(u, id, h2) == derives_mono(u, id, h),
    decreases h,
{
    match mono_next(u, id) {
        Some(b) => lemma_walk_stable(u, b, (h - 1) as nat, (h2 - 1) as nat),
        None => {},
    }
}

/// When the walk up the base types of `id` meets no type twice, walking as
/// many steps as there are loaded types reaches its end: the answer of
/// whether `id` derives from `MonoBehaviour` no longer changes with more steps.
pub proof fn law_monobehaviour_walk_is_long_enough(u: Seq<Assembly>, id: TypeId, h: nat)
    requires
        valid_id(u, id),
        walk_acyclic(u, id),
        u.len() <= usize::MAX,
        type_total(u, u.len()) <= usize::MAX,
        h >= chain_bound(u),
    ensures
        walk_ends(u, id, chain_bound(u)),
        derives_mono(u, id, h) == derives_mono(u, id, chain_bound(u)),
{
    let c = chain_bound(u);
    lemma_count_types(u, u.len());
    assert forall|j: int| 0 <= j < u.len() implies (#[trigger] u[j]).types@.len() <= usize::MAX by {
        lemma_type_total_mono(u, (j + 1) as nat, u.len());
        lemma_type_total_mono(u, 0, j as nat);
    }
    if !walk_ends(u, id, c) {
        lemma_walk_long(u, id, c);
        let s = Seq::new(c + 1, |k: int| flat_index(u, mono_walk(u, id, k as nat)->0));
        assert forall|k: int| 0 <= k < s.len() implies set_int_range(0, c as int).contains(#[trigger] s[k]) by {
            assert(mono_walk(u, id, k as nat) is Some);
            lemma_walk_valid(u, id, k as nat);
            lemma_flat_index(u, mono_walk(u, id, k as nat)->0, mono_walk(u, id, k as nat)->0);
        }
        assert forall|a: int, b: int| 0 <= a < s.len() && 0 <= b < s.len() && a != b implies s[a] != s[b] by {
            let (i, j) = if a < b { (a, b) } else { (b, a) };
            assert(mono_walk(u, id, i as nat) is Some);
            assert(mono_walk(u, id, j as nat) is Some);
            lemma_walk_valid(u, id, i as nat);
            lemma_walk_valid(u, id, j as nat);
            lemma_flat_index(u, mono_walk(u, id, i as nat)->0, mono_walk(u, id, j as nat)->0);
        }
        assert(s.no_duplicates());
        s.unique_seq_to_set();
        vstd::set_lib::lemma_int_range(0, c as int);
        assert(s.to_set().subset_of(set_int_range(0, c as int)));
        vstd::set_lib::lemma_len_subset(s.to_set(), set_int_range(0, c as int));
    }
    lemma_walk_stable(u, id, c, h);
}

/// The base type that the walk for `UnityEngine.Object` goes on to from `id`.
pub open spec fn ue_next(u: Seq<Assembly>, id: TypeId) -> Option<TypeId> {
    let d = tdef(u, id);
    if d.interface || d.full_name@ == "UnityEngine.Object"@ {
        None
    } else {
        match d.extends {
            None => None,
            Some(ts) => if ts.full_name@ == "UnityEngine.Object"@ || ts.full_name@ == "System.Object"@ {
                None
            } else {
                user_def(u, id.0, ts, d.extends_generic)
            },
        }
    }
}

/// The type `k` steps up the `UnityEngine.Object` walk from `id`.
pub open spec fn ue_walk(u: Seq<Assembly>, id: TypeId, k: nat) -> Option<TypeId>
    decreases k,
{
    if k == 0 {
        Some(id)
    } else {
        match ue_next(u, id) {
            None => None,
            Some(b) => ue_walk(u, b, (k - 1) as nat),
        }
    }
}

/// Whether the `UnityEngine.Object` walk from `id` stops within `h` steps.
pub open spec fn ue_walk_ends(u: Seq<Assembly>, id: TypeId, h: nat) -> bool
    decreases h,
{
    match ue_next(u, id) {
        None => true,
        Some(b) => h > 0 && ue_walk_ends(u, b, (h - 1) as nat),
    }
}

/// The `UnityEngine.Object` walk from `id` never meets a type twice.
pub open spec fn ue_walk_acyclic(u: Seq<Assembly>, id: TypeId) -> bool {
    forall|i: nat, j: nat| i < j && #[trigger] ue_walk(u, id, i) is Some && #[trigger] ue_walk(u, id, j) is Some
        ==> ue_walk(u, id, i) != ue_walk(u, id, j)
}

proof fn lemma_ue_next_valid(u: Seq<Assembly>, id: TypeId)
    requires
        indexable(u),
    ensures
        ue_next(u, id) matches Some(b) ==> valid_id(u, b),
{
    let d = tdef(u, id);
    match d.extends {
        Some(ts) => match ts.target {
            crate::metadata::Target::Assembly(n) => lemma_resolve_in_valid(u, n@, ts.namespace@, ts.name@, u.len()),
            _ => {},
        },
        None => {},
    }
}

proof fn lemma_ue_walk_valid(u: Seq<Assembly>, id: TypeId, k: nat)
    requires
        indexable(u),
        valid_id(u, id),
    ensures
        ue_walk(u, id, k) matches Some(x) ==> valid_id(u, x),
    decreases k,
{
    if k > 0 {
        lemma_ue_next_valid(u, id);
        match ue_next(u, id) {
            Some(b) => lemma_ue_walk_valid(u, b, (k - 1) as nat),
            None => {},
        }
    }
}

proof fn lemma_ue_walk_long(u: Seq<Assembly>, id: TypeId, h: nat)
    requires
        !ue_walk_ends(u, id, h),
    ensures
        forall|k: nat| k <= h + 1 ==> (#[trigger] ue_walk(u, id, k)) is Some,
    decreases h,
{
    let b = ue_next(u, id)->0;
    if h > 0 {
        lemma_ue_walk_long(u, b, (h - 1) as nat);
    }
    assert forall|k: nat| k <= h + 1 implies (#[trigger] ue_walk(u, id, k)) is Some by {
        if k > 0 {
            assert(ue_walk(u, id, k) == ue_walk(u, b, (k - 1) as nat));
            if h == 0 {
                assert(k == 1);
            }
        }
    }
}

proof fn lemma_ue_walk_stable(u: Seq<Assembly>, id: TypeId, h: nat, h2: nat)
    requires
        ue_walk_ends(u, id, h),
        h <= h2,
    ensures
        derives_ueobject(u, id, h2) == derives_ueobject(u, id, h),
    decreases h,
{
    match ue_next(u, id) {
        Some(b) => lemma_ue_walk_stable(u, b, (h - 1) as nat, (h2 - 1) as nat),
        None => {},
    }
}

/// When the walk up the base types of `id` meets no type twice, walking as
/// many steps as there are loaded types reaches its end: the answer of
/// whether `id` derives from `UnityEngine.Object` no longer changes with more steps.
pub proof fn law_unity_object_walk_is_long_enough(u: Seq<Assembly>, id: TypeId, h: nat)
    requires
        valid_id(u, id),
        ue_walk_acyclic(u, id),
        u.len() <= usize::MAX,
        type_total(u, u.len()) <= usize::MAX,
        h >= chain_bound(u),
    ensures
        ue_walk_ends(u, id, chain_bound(u)),
        derives_ueobject(u, id, h) == derives_ueobject(u, id, chain_bound(u)),
{
    let c = chain_bound(u);
    lemma_count_types(u, u.len());
    assert forall|j: int| 0 <= j < u.len() implies (#[trigger] u[j]).types@.len() <= usize::MAX by {
        lemma_type_total_mono(u, (j + 1) as nat, u.len());
        lemma_type_total_mono(u, 0, j as nat);
    }
    if !ue_walk_ends(u, id, c) {
        lemma_ue_walk_long(u, id, c);
        let s = Seq::new(c + 1, |k: int| flat_index(u, ue_walk(u, id, k as nat)->0));
        assert forall|k: int| 0 <= k < s.len() implies set_int_range(0, c as int).contains(#[trigger] s[k]) by {
            assert(ue_walk(u, id, k as nat) is Some);
            lemma_ue_walk_valid(u, id, k as nat);
            lemma_flat_index(u, ue_walk(u, id, k as nat)->0, ue_walk(u, id, k as nat)->0);
        }
        assert forall|a: int, b: int| 0 <= a < s.len() && 0 <= b < s.len() && a != b implies s[a] != s[b] by {
            let (i, j) = if a < b { (a, b) } else { (b, a) };
            assert(ue_walk(u, id, i as nat) is Some);
            assert(ue_walk(u, id, j as nat) is Some);
            lemma_ue_walk_valid(u, id, i as nat);
            lemma_ue_walk_valid(u, id, j as nat);
            lemma_flat_index(u, ue_walk(u, id, i as nat)->0, ue_walk(u, id, j as nat)->0);
        }
        assert(s.no_duplicates());
        s.unique_seq_to_set();
        vstd::set_lib::lemma_int_range(0, c as int);
        assert(s.to_set().subset_of(set_int_range(0, c as int)));
        vstd::set_lib::lemma_len_subset(s.to_set(), set_int_range(0, c as int));
    }
    lemma_ue_walk_stable(u, id, c, h);
}

// --- where the nesting budget cuts a reading short ---

/// Whether reading `id` within `fuel` nested loads stops somewhere for want
/// of fuel: a load or a nested type that more fuel would have read.
pub open spec fn load_cut(u: Seq<Assembly>, v: UnityVersion, id: TypeId, avail: int, is_rec: bool, fuel: nat) -> bool
    decreases fuel, 3int, 0nat,
{
    if !valid_id(u, id) {
        false
    } else if fuel == 0 {
        true
    } else {
        let d = if is_rec {
            avail
        } else {
            avail - 1
        };
        let b = match inherited_base_spec(u, id) {
            Some(bid) => load_cut(u, v, bid, d, true, (fuel - 1) as nat),
            None => false,
        };
        let l = acceptable_list(u, v, id, d);
        b || read_list_cut(u, v, id, d, (fuel - 1) as nat, l, l.len())
    }
}

pub open spec fn read_list_cut(u: Seq<Assembly>, v: UnityVersion, id: TypeId, d: int, fuel: nat, l: Seq<usize>, n: nat) -> bool
    decreases fuel, 2int, n,
{
    if n == 0 || n > l.len() {
        false
    } else {
        read_list_cut(u, v, id, d, fuel, l, (n - 1) as nat) || field_node_cut(u, v, id, l[n - 1] as int, d, fuel)
    }
}

pub open spec fn field_node_cut(u: Seq<Assembly>, v: UnityVersion, id: TypeId, fi: int, d: int, fuel: nat) -> bool
    decreases fuel, 1int, 0nat,
{
    let f = tdef(u, id).fields@[fi];
    let element = match collection_elem(f.ty) {
        Some(e) => e,
        None => f.ty,
    };
    classify_cut(u, v, id.0, f, element, d, fuel)
}

/// Whether the nested type of a field is read (its fields become children).
pub open spec fn reads_nested(u: Seq<Assembly>, v: UnityVersion, f: FieldDef, t: TypeId) -> bool {
    let def = tdef(u, t);
    &&& enum_under(u, t) is None
    &&& !derives_ueobject(u, t, chain_bound(u))
    &&& !has_attr(f, "UnityEngine.SerializeReference"@)
    &&& if special_unity_type(def.full_name@) {
        special_unity_children_model(def.name@, v) is None
    } else {
        def.serializable
    }
}

pub open spec fn classify_cut(u: Seq<Assembly>, v: UnityVersion, a: usize, f: FieldDef, m: MemberType, d: int, fuel: nat) -> bool
    decreases fuel, 0int, 0nat,
{
    if m is Primitive || m is Str {
        false
    } else {
        match user_def_of(u, a, m) {
            None => false,
            Some(t) => reads_nested(u, v, f, t) && (fuel == 0 || load_cut(u, v, t, d, false, (fuel - 1) as nat)),
        }
    }
}

proof fn lemma_load_stable(u: Seq<Assembly>, v: UnityVersion, id: TypeId, avail: int, is_rec: bool, f: nat, f2: nat)
    requires
        !load_cut(u, v, id, avail, is_rec, f),
        f <= f2,
    ensures
        load(u, v, id, avail, is_rec, f2) == load(u, v, id, avail, is_rec, f),
    decreases f, 3int, 0nat,
{
    if valid_id(u, id) {
        let d = if is_rec {
            avail
        } else {
            avail - 1
        };
        match inherited_base_spec(u, id) {
            Some(bid) => lemma_load_stable(u, v, bid, d, true, (f - 1) as nat, (f2 - 1) as nat),
            None => {},
        }
        let l = acceptable_list(u, v, id, d);
        lemma_read_list_stable(u, v, id, d, (f - 1) as nat, (f2 - 1) as nat, l, l.len());
    }
}

proof fn lemma_read_list_stable(u: Seq<Assembly>, v: UnityVersion, id: TypeId, d: int, f: nat, f2: nat, l: Seq<usize>, n: nat)
    requires
        !read_list_cut(u, v, id, d, f, l, n),
        f <= f2,
    ensures
        read_list(u, v, id, d, f2, l, n) == read_list(u, v, id, d, f, l, n),
    decreases f, 2int, n,
{
    if n > 0 && n <= l.len() {
        lemma_read_list_stable(u, v, id, d, f, f2, l, (n - 1) as nat);
        lemma_field_node_stable(u, v, id, l[n - 1] as int, d, f, f2);
    }
}

proof fn lemma_field_node_stable(u: Seq<Assembly>, v: UnityVersion, id: TypeId, fi: int, d: int, f: nat, f2: nat)
    requires
        !field_node_cut(u, v, id, fi, d, f),
        f <= f2,
    ensures
        field_node(u, v, id, fi, d, f2) == field_node(u, v, id, fi, d, f),
    decreases f, 1int, 0nat,
{
    let fd = tdef(u, id).fields@[fi];
    let element = match collection_elem(fd.ty) {
        Some(e) => e,
        None => fd.ty,
    };
    lemma_classify_stable(u, v, id.0, fd, element, d, f, f2);
}

proof fn lemma_classify_stable(u: Seq<Assembly>, v: UnityVersion, a: usize, fd: FieldDef, m: MemberType, d: int, f: nat, f2: nat)
    requires
        !classify_cut(u, v, a, fd, m, d, f),
        f <= f2,
    ensures
        classify_spec(u, v, a, fd, m, d, f2) == classify_spec(u, v, a, fd, m, d, f),
    decreases f, 0int, 0nat,
{
    if !(m is Primitive || m is Str) {
        match user_def_of(u, a, m) {
            Some(t) => {
                if reads_nested(u, v, fd, t) {
                    lemma_load_stable(u, v, t, d, false, (f - 1) as nat, (f2 - 1) as nat);
                }
            },
            None => {},
        }
    }
}

/// Where the reading of a type within the nesting budget is cut short
/// nowhere, a larger budget reads exactly the same fields.
pub proof fn law_uncut_reading_is_stable(u: Seq<Assembly>, v: UnityVersion, id: TypeId, avail: int, is_rec: bool, f: nat, f2: nat)
    requires
        !load_cut(u, v, id, avail, is_rec, f),
        f <= f2,
    ensures
        load(u, v, id, avail, is_rec, f2) == load(u, v, id, avail, is_rec, f),
{
    lemma_load_stable(u, v, id, avail, is_rec, f, f2);
}

/// The field `fi` of `id`, read at depth `d`, needs less than `r(id, d)`
/// nested loads: two more than its nested type needs at the next depth.
pub open spec fn nested_ranked(u: Seq<Assembly>, v: UnityVersion, r: spec_fn(TypeId, int) -> nat, id: TypeId, d: int, fi: int) -> bool {
    let f = tdef(u, id).fields@[fi];
    let element = match collection_elem(f.ty) {
        Some(e) => e,
        None => f.ty,
    };
    (element is Primitive || element is Str) || match user_def_of(u, id.0, element) {
        Some(t) => reads_nested(u, v, f, t) ==> r(id, d) >= 2 + r(t, d - 1),
        None => true,
    }
}

/// `r(id, d)` bounds the nested loads that reading `id` at depth `d` needs:
/// one for itself, one more than its base, two more than each nested type.
pub open spec fn rank_holds(u: Seq<Assembly>, v: UnityVersion, r: spec_fn(TypeId, int) -> nat, id: TypeId, d: int) -> bool {
    &&& r(id, d) >= 1
    &&& inherited_base_spec(u, id) matches Some(bid) ==> r(id, d) >= 1 + r(bid, d)
    &&& forall|k: int| 0 <= k < acceptable_list(u, v, id, d).len() ==> #[trigger] nested_ranked(u, v, r, id, d, acceptable_list(u, v, id, d)[k] as int)
}

/// The metadata has no cycle of base types or nested types that reading
/// could follow: a rank `r` drops along every base and every nested load.
pub open spec fn ranked(u: Seq<Assembly>, v: UnityVersion, r: spec_fn(TypeId, int) -> nat) -> bool {
    forall|id: TypeId, d: int| valid_id(u, id) ==> #[trigger] rank_holds(u, v, r, id, d)
}

proof fn lemma_load_uncut(u: Seq<Assembly>, v: UnityVersion, r: spec_fn(TypeId, int) -> nat, id: TypeId, avail: int, is_rec: bool, fuel: nat)
    requires
        ranked(u, v, r),
        fuel >= r(id, if is_rec { avail } else { avail - 1 }),
    ensures
        !load_cut(u, v, id, avail, is_rec, fuel),
    decreases fuel, 3int, 0nat,
{
    if valid_id(u, id) {
        let d = if is_rec {
            avail
        } else {
            avail - 1
        };
        assert(rank_holds(u, v, r, id, d));
        match inherited_base_spec(u, id) {
            Some(bid) => lemma_load_uncut(u, v, r, bid, d, true, (fuel - 1) as nat),
            None => {},
        }
        let l = acceptable_list(u, v, id, d);
        lemma_read_list_uncut(u, v, r, id, d, (fuel - 1) as nat, l.len());
    }
}

proof fn lemma_read_list_uncut(u: Seq<Assembly>, v: UnityVersion, r: spec_fn(TypeId, int) -> nat, id: TypeId, d: int, fuel: nat, n: nat)
    requires
        ranked(u, v, r),
        valid_id(u, id),
        fuel + 1 >= r(id, d),
        n <= acceptable_list(u, v, id, d).len(),
    ensures
        !read_list_cut(u, v, id, d, fuel, acceptable_list(u, v, id, d), n),
    decreases fuel, 2int, n,
{
    let l = acceptable_list(u, v, id, d);
    if n > 0 {
        lemma_read_list_uncut(u, v, r, id, d, fuel, (n - 1) as nat);
        assert(rank_holds(u, v, r, id, d));
        assert(nested_ranked(u, v, r, id, d, l[n - 1] as int));
        lemma_field_node_uncut(u, v, r, id, l[n - 1] as int, d, fuel);
    }
}

proof fn lemma_field_node_uncut(u: Seq<Assembly>, v: UnityVersion, r: spec_fn(TypeId, int) -> nat, id: TypeId, fi: int, d: int, fuel: nat)
    requires
        ranked(u, v, r),
        fuel + 1 >= r(id, d),
        nested_ranked(u, v, r, id, d, fi),
    ensures
        !field_node_cut(u, v, id, fi, d, fuel),
    decreases fuel, 1int, 0nat,
{
    let f = tdef(u, id).fields@[fi];
    let element = match collection_elem(f.ty) {
        Some(e) => e,
        None => f.ty,
    };
    if !(element is Primitive || element is Str) {
        match user_def_of(u, id.0, element) {
            Some(t) => if reads_nested(u, v, f, t) {
                lemma_load_uncut(u, v, r, t, d, false, (fuel - 1) as nat);
            },
            None => {},
        }
    }
}

/// Where a rank bounds the nested loads of `id` within the budget, the
/// reading is cut short nowhere, so a larger budget reads the same fields.
pub proof fn law_ranked_reading_is_not_cut(u: Seq<Assembly>, v: UnityVersion, r: spec_fn(TypeId, int) -> nat, id: TypeId, avail: int, fuel: nat, f2: nat)
    requires
        ranked(u, v, r),
        fuel >= r(id, avail),
        fuel <= f2,
    ensures
        !load_cut(u, v, id, avail, true, fuel),
        load(u, v, id, avail, true, f2) == load(u, v, id, avail, true, fuel),
{
    lemma_load_uncut(u, v, r, id, avail, true, fuel);
    lemma_load_stable(u, v, id, avail, true, fuel, f2);
}

// --- the nesting budget suffices on metadata without cycles ---

/// Distinct valid type ids are no more than the loaded types.
proof fn lemma_distinct_ids(u: Seq<Assembly>, s: Seq<TypeId>)
    requires
        forall|i: int| 0 <= i < s.len() ==> valid_id(u, #[trigger] s[i]),
        forall|i: int, j: int| 0 <= i < j < s.len() ==> #[trigger] s[i] != #[trigger] s[j],
    ensures
        s.len() <= type_total(u, u.len()),
{
    let t = type_total(u, u.len());
    lemma_type_total_mono(u, 0, u.len());
    let q = Seq::new(s.len(), |k: int| flat_index(u, s[k]));
    assert forall|k: int| 0 <= k < q.len() implies set_int_range(0, t).contains(#[trigger] q[k]) by {
        lemma_flat_index(u, s[k], s[k]);
    }
    assert forall|a: int, b: int| 0 <= a < q.len() && 0 <= b < q.len() && a != b implies q[a] != q[b] by {
        lemma_flat_index(u, s[a], s[b]);
        if a < b {
            assert(s[a] != s[b]);
        } else {
            assert(s[b] != s[a]);
        }
    }
    assert(q.no_duplicates());
    q.unique_seq_to_set();
    vstd::set_lib::lemma_int_range(0, t);
    assert(q.to_set().subset_of(set_int_range(0, t)));
    vstd::set_lib::lemma_len_subset(q.to_set(), set_int_range(0, t));
}

proof fn lemma_user_def_of_valid(u: Seq<Assembly>, a: usize, m: MemberType)
    requires
        indexable(u),
    ensures
        user_def_of(u, a, m) matches Some(t) ==> valid_id(u, t),
{
    match m {
        MemberType::Named(r) => match r.target {
            crate::metadata::Target::Assembly(n) => lemma_resolve_in_valid(u, n@, r.namespace@, r.name@, u.len()),
            _ => {},
        },
        _ => {},
    }
}

proof fn lemma_inherited_base_valid(u: Seq<Assembly>, id: TypeId)
    requires
        indexable(u),
    ensures
        inherited_base_spec(u, id) matches Some(b) ==> valid_id(u, b),
{
    match tdef(u, id).extends {
        Some(ts) => match ts.target {
            crate::metadata::Target::Assembly(n) => lemma_resolve_in_valid(u, n@, ts.namespace@, ts.name@, u.len()),
            _ => {},
        },
        None => {},
    }
}

proof fn lemma_acceptable_members(u: Seq<Assembly>, v: UnityVersion, id: TypeId, d: int, n: nat)
    requires
        n <= usize::MAX + 1,
    ensures
        forall|k: int| 0 <= k < acceptable_upto(u, v, id, d, n).len() ==> acceptable(u, v, id, #[trigger] acceptable_upto(u, v, id, d, n)[k] as int, d),
    decreases n,
{
    if n > 0 {
        lemma_acceptable_members(u, v, id, d, (n - 1) as nat);
        let p = acceptable_upto(u, v, id, d, (n - 1) as nat);
        let q = acceptable_upto(u, v, id, d, n);
        assert forall|k: int| 0 <= k < q.len() implies acceptable(u, v, id, #[trigger] q[k] as int, d) by {
            if k < p.len() {
                assert(q[k] == p[k]);
            }
        }
    }
}

/// The type `k` steps up the inherited-field walk from `id`.
pub open spec fn base_walk(u: Seq<Assembly>, id: TypeId, k: nat) -> Option<TypeId>
    decreases k,
{
    if k == 0 {
        Some(id)
    } else {
        match inherited_base_spec(u, id) {
            None => None,
            Some(b) => base_walk(u, b, (k - 1) as nat),
        }
    }
}

/// No walk up the base types whose fields are inherited meets a type twice.
pub open spec fn bases_acyclic(u: Seq<Assembly>) -> bool {
    forall|x: TypeId, i: nat, j: nat| valid_id(u, x) && i < j && #[trigger] base_walk(u, x, i) is Some && #[trigger] base_walk(u, x, j) is Some
        ==> base_walk(u, x, i) != base_walk(u, x, j)
}

/// The number of base types above `id`, counting at most `k`.
pub open spec fn base_len(u: Seq<Assembly>, id: TypeId, k: nat) -> nat
    decreases k,
{
    if k == 0 {
        0
    } else {
        match inherited_base_spec(u, id) {
            None => 0,
            Some(b) => 1 + base_len(u, b, (k - 1) as nat),
        }
    }
}

proof fn lemma_base_len_bound(u: Seq<Assembly>, id: TypeId, k: nat)
    ensures
        base_len(u, id, k) <= k,
    decreases k,
{
    if k > 0 {
        match inherited_base_spec(u, id) {
            Some(b) => lemma_base_len_bound(u, b, (k - 1) as nat),
            None => {},
        }
    }
}

proof fn lemma_base_walk_prefix(u: Seq<Assembly>, id: TypeId, j: nat, k: nat)
    requires
        j <= k,
        base_walk(u, id, k) is Some,
    ensures
        base_walk(u, id, j) is Some,
    decreases k,
{
    if j > 0 {
        let b = inherited_base_spec(u, id)->0;
        lemma_base_walk_prefix(u, b, (j - 1) as nat, (k - 1) as nat);
    }
}

proof fn lemma_base_walk_valid(u: Seq<Assembly>, id: TypeId, k: nat)
    requires
        indexable(u),
        valid_id(u, id),
    ensures
        base_walk(u, id, k) matches Some(y) ==> valid_id(u, y),
    decreases k,
{
    if k > 0 {
        lemma_inherited_base_valid(u, id);
        match inherited_base_spec(u, id) {
            Some(b) => lemma_base_walk_valid(u, b, (k - 1) as nat),
            None => {},
        }
    }
}

proof fn lemma_base_walk_ends(u: Seq<Assembly>, id: TypeId)
    requires
        indexable(u),
        valid_id(u, id),
        bases_acyclic(u),
    ensures
        base_walk(u, id, type_total(u, u.len()) as nat) is None,
{
    let c = type_total(u, u.len());
    lemma_type_total_mono(u, 0, u.len());
    if base_walk(u, id, c as nat) is Some {
        let s = Seq::new((c + 1) as nat, |k: int| base_walk(u, id, k as nat)->0);
        assert forall|i: int| 0 <= i < s.len() implies valid_id(u, #[trigger] s[i]) by {
            lemma_base_walk_prefix(u, id, i as nat, c as nat);
            lemma_base_walk_valid(u, id, i as nat);
        }
        assert forall|i: int, j: int| 0 <= i < j < s.len() implies #[trigger] s[i] != #[trigger] s[j] by {
            lemma_base_walk_prefix(u, id, i as nat, c as nat);
            lemma_base_walk_prefix(u, id, j as nat, c as nat);
            assert(base_walk(u, id, i as nat) != base_walk(u, id, j as nat));
        }
        lemma_distinct_ids(u, s);
    }
}

proof fn lemma_base_len_stable(u: Seq<Assembly>, id: TypeId, k: nat, k2: nat)
    requires
        base_walk(u, id, k) is None,
        k <= k2,
    ensures
        base_len(u, id, k2) == base_len(u, id, k),
    decreases k,
{
    match inherited_base_spec(u, id) {
        Some(b) => lemma_base_len_stable(u, b, (k - 1) as nat, (k2 - 1) as nat),
        None => {},
    }
}

/// Field `fi` of `x`, read at a negative depth, nests the type `t`.
pub open spec fn nests_via(u: Seq<Assembly>, v: UnityVersion, x: TypeId, fi: int, t: TypeId) -> bool {
    let f = tdef(u, x).fields@[fi];
    let element = match collection_elem(f.ty) {
        Some(e) => e,
        None => f.ty,
    };
    &&& 0 <= fi < tdef(u, x).fields@.len()
    &&& acceptable(u, v, x, fi, -1)
    &&& !(element is Primitive || element is Str)
    &&& user_def_of(u, x.0, element) == Some(t)
    &&& reads_nested(u, v, f, t)
}

/// Reading `x` at a negative depth reads `t` nested, through a field of `x`
/// or of a type whose fields `x` inherits.
pub open spec fn nests(u: Seq<Assembly>, v: UnityVersion, x: TypeId, t: TypeId) -> bool {
    exists|k: nat, fi: int| #[trigger] base_walk(u, x, k) is Some && #[trigger] nests_via(u, v, base_walk(u, x, k)->0, fi, t)
}

/// A chain of valid types, each read nested from the one before at a negative depth.
pub open spec fn nest_path(u: Seq<Assembly>, v: UnityVersion, p: Seq<TypeId>) -> bool {
    &&& p.len() > 0
    &&& forall|i: int| 0 <= i < p.len() ==> valid_id(u, #[trigger] p[i])
    &&& forall|i: int| 0 <= i < p.len() - 1 ==> #[trigger] nests(u, v, p[i], p[i + 1])
}

/// No type is read nested inside itself at a negative depth (value types
/// hold no value type that holds them).
pub open spec fn nesting_acyclic(u: Seq<Assembly>, v: UnityVersion) -> bool {
    forall|p: Seq<TypeId>| #[trigger] nest_path(u, v, p) ==> forall|i: int, j: int| 0 <= i < j < p.len() ==> p[i] != p[j]
}

pub open spec fn has_path_of(u: Seq<Assembly>, v: UnityVersion, x: TypeId, n: nat) -> bool {
    exists|p: Seq<TypeId>| #[trigger] nest_path(u, v, p) && p[0] == x && p.len() == n + 1
}

/// The length of the longest chain of nested reads from `x` at negative depths.
pub open spec fn height(u: Seq<Assembly>, v: UnityVersion, x: TypeId) -> nat {
    choose|n: nat| has_path_of(u, v, x, n) && forall|m: nat| m > n ==> !#[trigger] has_path_of(u, v, x, m)
}

proof fn lemma_path_bound(u: Seq<Assembly>, v: UnityVersion, x: TypeId, n: nat)
    requires
        nesting_acyclic(u, v),
        has_path_of(u, v, x, n),
    ensures
        n + 1 <= type_total(u, u.len()),
{
    let p = choose|p: Seq<TypeId>| #[trigger] nest_path(u, v, p) && p[0] == x && p.len() == n + 1;
    assert forall|i: int, j: int| 0 <= i < j < p.len() implies #[trigger] p[i] != #[trigger] p[j] by {
    }
    lemma_distinct_ids(u, p);
}

proof fn lemma_longest(u: Seq<Assembly>, v: UnityVersion, x: TypeId, k: nat)
    requires
        nesting_acyclic(u, v),
        has_path_of(u, v, x, k),
    ensures
        exists|n: nat| has_path_of(u, v, x, n) && forall|m: nat| m > n ==> !#[trigger] has_path_of(u, v, x, m),
    decreases type_total(u, u.len()) - k,
{
    lemma_path_bound(u, v, x, k);
    if exists|m: nat| m > k && #[trigger] has_path_of(u, v, x, m) {
        let m = choose|m: nat| m > k && #[trigger] has_path_of(u, v, x, m);
        lemma_path_bound(u, v, x, m);
        lemma_longest(u, v, x, m);
    } else {
        assert(has_path_of(u, v, x, k) && forall|m: nat| m > k ==> !#[trigger] has_path_of(u, v, x, m));
    }
}

proof fn lemma_height(u: Seq<Assembly>, v: UnityVersion, x: TypeId)
    requires
        nesting_acyclic(u, v),
        valid_id(u, x),
    ensures
        has_path_of(u, v, x, height(u, v, x)),
        forall|m: nat| m > height(u, v, x) ==> !#[trigger] has_path_of(u, v, x, m),
        height(u, v, x) < type_total(u, u.len()),
{
    let p = seq![x];
    assert(nest_path(u, v, p));
    assert(has_path_of(u, v, x, 0));
    lemma_longest(u, v, x, 0);
    lemma_path_bound(u, v, x, height(u, v, x));
}

proof fn lemma_height_nests(u: Seq<Assembly>, v: UnityVersion, x: TypeId, t: TypeId)
    requires
        nesting_acyclic(u, v),
        valid_id(u, x),
        valid_id(u, t),
        nests(u, v, x, t),
    ensures
        height(u, v, x) >= height(u, v, t) + 1,
{
    lemma_height(u, v, x);
    lemma_height(u, v, t);
    let h = height(u, v, t);
    let p = choose|p: Seq<TypeId>| #[trigger] nest_path(u, v, p) && p[0] == t && p.len() == h + 1;
    let q = seq![x] + p;
    assert forall|i: int| 0 <= i < q.len() implies valid_id(u, #[trigger] q[i]) by {
        if i > 0 {
            assert(q[i] == p[i - 1]);
        }
    }
    assert forall|i: int| 0 <= i < q.len() - 1 implies #[trigger] nests(u, v, q[i], q[i + 1]) by {
        if i > 0 {
            assert(q[i] == p[i - 1] && q[i + 1] == p[i]);
            let j = i - 1;
            assert(nests(u, v, p[j], p[j + 1]));
        } else {
            assert(q[0] == x && q[1] == t);
        }
    }
    assert(nest_path(u, v, q));
    assert(has_path_of(u, v, x, h + 1));
}

proof fn lemma_height_base(u: Seq<Assembly>, v: UnityVersion, x: TypeId, b: TypeId)
    requires
        nesting_acyclic(u, v),
        valid_id(u, x),
        valid_id(u, b),
        inherited_base_spec(u, x) == Some(b),
    ensures
        height(u, v, b) <= height(u, v, x),
{
    lemma_height(u, v, x);
    lemma_height(u, v, b);
    let h = height(u, v, b);
    if h > 0 {
        let p = choose|p: Seq<TypeId>| #[trigger] nest_path(u, v, p) && p[0] == b && p.len() == h + 1;
        let q = p.update(0, x);
        assert(nests(u, v, p[0], p[1]));
        let (k, fi) = choose|k: nat, fi: int| #[trigger] base_walk(u, b, k) is Some && #[trigger] nests_via(u, v, base_walk(u, b, k)->0, fi, p[1]);
        assert(base_walk(u, x, k + 1) == base_walk(u, b, k));
        assert(nests(u, v, x, p[1]));
        assert forall|i: int| 0 <= i < q.len() implies valid_id(u, #[trigger] q[i]) by {
            if i > 0 {
                assert(q[i] == p[i]);
            }
        }
        assert forall|i: int| 0 <= i < q.len() - 1 implies #[trigger] nests(u, v, q[i], q[i + 1]) by {
            if i > 0 {
                assert(q[i] == p[i] && q[i + 1] == p[i + 1]);
            }
        }
        assert(nest_path(u, v, q));
        assert(has_path_of(u, v, x, h));
    }
}

/// A bound on the nested loads that reading `x` at depth `d` needs on
/// metadata without cycles: its base types, plus `c + 2` for each nesting
/// level below it (the depth levels left, then the longest chain of nested
/// value types), for `c` loaded types.
pub open spec fn rank_of(u: Seq<Assembly>, v: UnityVersion, x: TypeId, d: int) -> nat {
    let c = type_total(u, u.len()) as nat;
    let levels: nat = if d >= 0 {
        (d + 1 + c) as nat
    } else {
        height(u, v, x)
    };
    base_len(u, x, c) + 1 + (c + 2) * levels
}

/// Every type's fields can be indexed by a `usize`.
pub open spec fn fields_indexable(u: Seq<Assembly>) -> bool {
    forall|id: TypeId| valid_id(u, id) ==> (#[trigger] tdef(u, id)).fields@.len() <= usize::MAX
}

proof fn lemma_rank_holds(u: Seq<Assembly>, v: UnityVersion, id: TypeId, d: int)
    requires
        indexable(u),
        fields_indexable(u),
        bases_acyclic(u),
        nesting_acyclic(u, v),
        valid_id(u, id),
    ensures
        rank_holds(u, v, |x: TypeId, dd: int| rank_of(u, v, x, dd), id, d),
{
    let r = |x: TypeId, dd: int| rank_of(u, v, x, dd);
    let c = type_total(u, u.len()) as nat;
    lemma_flat_index(u, id, id);
    lemma_type_total_mono(u, 0, u.len());
    let lid: nat = if d >= 0 {
        (d + 1 + c) as nat
    } else {
        height(u, v, id)
    };
    match inherited_base_spec(u, id) {
        Some(b) => {
            lemma_inherited_base_valid(u, id);
            lemma_base_walk_ends(u, id);
            assert(base_walk(u, id, c) == base_walk(u, b, (c - 1) as nat));
            lemma_base_len_stable(u, b, (c - 1) as nat, c);
            assert(base_len(u, id, c) == 1 + base_len(u, b, c));
            let lb: nat = if d >= 0 {
                (d + 1 + c) as nat
            } else {
                height(u, v, b)
            };
            if d < 0 {
                lemma_height_base(u, v, id, b);
            }
            assert(lid >= lb);
            assert((c + 2) * lid >= (c + 2) * lb) by (nonlinear_arith)
                requires
                    lid >= lb,
            ;
            assert(r(id, d) >= 1 + r(b, d));
        },
        None => {},
    }
    let n = tdef(u, id).fields@.len();
    let l = acceptable_list(u, v, id, d);
    lemma_acceptable_members(u, v, id, d, n);
    lemma_acceptable_range(u, v, id, d, n);
    assert forall|k: int| 0 <= k < l.len() implies #[trigger] nested_ranked(u, v, r, id, d, l[k] as int) by {
        let fi = l[k] as int;
        let f = tdef(u, id).fields@[fi];
        let element = match collection_elem(f.ty) {
            Some(e) => e,
            None => f.ty,
        };
        if !(element is Primitive || element is Str) {
            lemma_user_def_of_valid(u, id.0, element);
            match user_def_of(u, id.0, element) {
                Some(t) => if reads_nested(u, v, f, t) {
                    lemma_height(u, v, t);
                    lemma_base_len_bound(u, t, c);
                    let lt: nat = if d - 1 >= 0 {
                        (d - 1 + 1 + c) as nat
                    } else {
                        height(u, v, t)
                    };
                    if d < 0 {
                        assert(acceptable(u, v, id, fi, d));
                        assert(acceptable(u, v, id, fi, -1));
                        assert(nests_via(u, v, id, fi, t));
                        assert(base_walk(u, id, 0) == Some(id));
                        assert(base_walk(u, id, 0nat) is Some && nests_via(u, v, base_walk(u, id, 0nat)->0, fi, t));
                        assert(nests(u, v, id, t));
                        lemma_height_nests(u, v, id, t);
                    }
                    assert(lid >= lt + 1);
                    assert((c + 2) * lid >= (c + 2) * lt + (c + 2)) by (nonlinear_arith)
                        requires
                            lid >= lt + 1,
                    ;
                    assert(r(t, d - 1) == base_len(u, t, c) + 1 + (c + 2) * lt);
                    assert(r(id, d) >= 2 + r(t, d - 1));
                },
                None => {},
            }
        }
    }
}

/// On metadata without cycles among the types whose fields are inherited
/// and among nested value types, the nesting budget never cuts a reading
/// short, and a larger budget reads exactly the same fields.
pub proof fn law_budget_suffices_without_cycles(u: Seq<Assembly>, v: UnityVersion, id: TypeId)
    requires
        valid_id(u, id),
        u.len() <= usize::MAX,
        fields_indexable(u),
        type_total(u, u.len()) < 0x7000,
        bases_acyclic(u),
        nesting_acyclic(u, v),
    ensures
        !load_cut(u, v, id, serialization_limit_spec(v) as int, true, fuel_for(u)),
        forall|f: nat| f >= fuel_for(u) ==> #[trigger] load(u, v, id, serialization_limit_spec(v) as int, true, f)
            == load(u, v, id, serialization_limit_spec(v) as int, true, fuel_for(u)),
{
    let c = type_total(u, u.len()) as nat;
    assert forall|j: int| 0 <= j < u.len() implies (#[trigger] u[j]).types@.len() <= usize::MAX by {
        lemma_type_total_mono(u, (j + 1) as nat, u.len());
        lemma_type_total_mono(u, 0, j as nat);
    }
    assert(indexable(u));
    lemma_count_types(u, u.len());
    let r = |x: TypeId, dd: int| rank_of(u, v, x, dd);
    assert forall|x: TypeId, dd: int| valid_id(u, x) implies #[trigger] rank_holds(u, v, r, x, dd) by {
        lemma_rank_holds(u, v, x, dd);
    }
    assert(ranked(u, v, r));
    let lim = serialization_limit_spec(v) as int;
    lemma_base_len_bound(u, id, c);
    let levels = (lim + 1 + c) as nat;
    assert(levels <= c + 11);
    assert((c + 2) * levels <= (c + 2) * (c + 11)) by (nonlinear_arith)
        requires
            levels <= c + 11,
    ;
    assert(c + 1 + (c + 2) * (c + 11) <= (c + 2) * (c + 14)) by (nonlinear_arith);
    assert(fuel_for(u) == (c + 2) * (c + 14));
    assert(r(id, lim) <= fuel_for(u));
    lemma_load_uncut(u, v, r, id, lim, true, fuel_for(u));
    assert forall|f: nat| f >= fuel_for(u) implies #[trigger] load(u, v, id, lim, true, f) == load(u, v, id, lim, true, fuel_for(u)) by {
        lemma_load_stable(u, v, id, lim, true, fuel_for(u), f);
    }
}

/// Every field of `id` has a built-in primitive or string type.
pub open spec fn has_only_builtin_fields(u: Seq<Assembly>, id: TypeId) -> bool {
    forall|fi: int| 0 <= fi < tdef(u, id).fields@.len() ==> (#[trigger] tdef(u, id).fields@[fi]).ty is Primitive
        || tdef(u, id).fields@[fi].ty is Str
}

proof fn lemma_builtin_acceptable_needs(u: Seq<Assembly>, v: UnityVersion, id: TypeId, d: int, n: nat)
    requires
        has_only_builtin_fields(u, id),
        n <= tdef(u, id).fields@.len(),
    ensures
        acceptable_upto_needs(u, v, id, d, n) == Set::<Seq<char>>::empty(),
    decreases n,
{
    if n > 0 {
        lemma_builtin_acceptable_needs(u, v, id, d, (n - 1) as nat);
        let f = tdef(u, id).fields@[n - 1];
        assert(f.ty is Primitive || f.ty is Str);
        assert(acceptable_needs(u, v, id, n - 1, d) =~= Set::<Seq<char>>::empty());
        assert(Set::<Seq<char>>::empty().union(Set::<Seq<char>>::empty()) =~= Set::<Seq<char>>::empty());
    }
}

proof fn lemma_builtin_read_list_needs(u: Seq<Assembly>, v: UnityVersion, id: TypeId, d: int, fuel: nat, l: Seq<usize>, n: nat)
    requires
        has_only_builtin_fields(u, id),
        forall|k: int| 0 <= k < l.len() ==> (#[trigger] l[k]) < tdef(u, id).fields@.len(),
    ensures
        read_list_needs(u, v, id, d, fuel, l, n) == Set::<Seq<char>>::empty(),
    decreases n,
{
    if n > 0 && n <= l.len() {
        lemma_builtin_read_list_needs(u, v, id, d, fuel, l, (n - 1) as nat);
        let f = tdef(u, id).fields@[l[n - 1] as int];
        assert(f.ty is Primitive || f.ty is Str);
        assert(collection_elem(f.ty) is None);
        assert(field_node_needs(u, v, id, l[n - 1] as int, d, fuel) =~= Set::<Seq<char>>::empty());
        assert(Set::<Seq<char>>::empty().union(Set::<Seq<char>>::empty()) =~= Set::<Seq<char>>::empty());
    }
}

/// A top-level type of assembly `a` whose base is a stop type (such as
/// `MonoBehaviour`) or absent and whose fields are all of built-in
/// primitive or string types needs no other assembly: generating it asks
/// for nothing but its own assembly file.
pub proof fn law_builtin_fields_need_no_other_assembly(u: Seq<Assembly>, v: UnityVersion, a: usize, ns: Seq<char>, name: Seq<char>)
    requires
        a < u.len(),
        first_top_level(u[a as int].types@, ns, name, 0) matches Some(t) && ({
            let id = (a, t as usize);
            &&& valid_id(u, id)
            &&& has_only_builtin_fields(u, id)
            &&& tdef(u, id).extends matches Some(ts) ==> base_stop(ts.full_name@)
        }),
    ensures
        read_needs(u, v, a, ns, name) == Set::<Seq<char>>::empty(),
{
    let t = first_top_level(u[a as int].types@, ns, name, 0)->0;
    let id = (a, t as usize);
    let d = serialization_limit_spec(v) as int;
    assert(lookup_spec(u, a, ns, name) == Some(id));
    assert(lookup_needs(u, a, ns, name) =~= Set::<Seq<char>>::empty());
    let fuel = fuel_for(u);
    if fuel > 0 {
        let l = acceptable_list(u, v, id, d);
        lemma_builtin_acceptable_needs(u, v, id, d, tdef(u, id).fields@.len());
        lemma_acceptable_range(u, v, id, d, tdef(u, id).fields@.len());
        lemma_builtin_read_list_needs(u, v, id, d, (fuel - 1) as nat, l, l.len());
        assert(inherited_base_needs(u, id) =~= Set::<Seq<char>>::empty());
        assert(load_needs(u, v, id, d, true, fuel) =~= Set::<Seq<char>>::empty());
    }
    assert(read_needs(u, v, a, ns, name) =~= Set::<Seq<char>>::empty());
}

/// A field (at a non-negative depth, without `[SerializeReference]`) whose
/// type, or element type for an array or `List<T>`, is a plain class: not
/// `[Serializable]`, not derived from `UnityEngine.Object`, not an enum and
/// not one of Unity's special types, is not serialized.
pub proof fn law_plain_class_fields_are_not_serialized(u: Seq<Assembly>, v: UnityVersion, id: TypeId, fi: int, d: int, t: TypeId)
    requires
        d >= 0,
        !has_attr(tdef(u, id).fields@[fi], "UnityEngine.SerializeReference"@),
        user_def_of(u, id.0, match collection_elem(tdef(u, id).fields@[fi].ty) {
            Some(e) => e,
            None => tdef(u, id).fields@[fi].ty,
        }) == Some(t),
        !tdef(u, t).serializable,
        !derives_ueobject(u, t, chain_bound(u)),
        enum_under(u, t) is None,
        !special_unity_type(tdef(u, t).full_name@),
    ensures
        !acceptable(u, v, id, fi, d),
{
}

/// A plain class (not `[Serializable]`, not derived from `UnityEngine.Object`,
/// not an enum, not one of Unity's special types) is never a valid field
/// type at a non-negative depth without `[SerializeReference]`.
pub proof fn law_plain_class_is_not_a_valid_field_type(u: Seq<Assembly>, v: UnityVersion, a: usize, f: FieldDef, m: MemberType, d: int, t: TypeId)
    requires
        d >= 0,
        !has_attr(f, "UnityEngine.SerializeReference"@),
        user_def_of(u, a, m) == Some(t),
        !tdef(u, t).serializable,
        !derives_ueobject(u, t, chain_bound(u)),
        enum_under(u, t) is None,
        !special_unity_type(tdef(u, t).full_name@),
    ensures
        !valid_def(u, v, a, f, m, d),
{
}

} // verus!
