//! A model of the .NET metadata that type-tree generation reads: assemblies,
//! their type definitions, fields and type references, and the resolution of
//! a type reference to a definition in some loaded assembly.
use vstd::prelude::*;
use crate::text::text_eq;

verus! {

/// The .NET primitive value types.
#[derive(Debug, Clone, Copy, PartialEq, Eq, Structural)]
pub enum Primitive {
    Boolean,
    Char,
    Int8,
    UInt8,
    Int16,
    UInt16,
    Int32,
    UInt32,
    Int64,
    UInt64,
    Float32,
    Float64,
}

/// Where the definition of a referenced type lives.
#[derive(Debug)]
pub enum Target {
    /// A definition of the same assembly, by its index.
    Local(usize),
    /// A top-level type of the assembly with this name, found by namespace and name.
    Assembly(String),
    /// Anywhere else (a nested reference, another module): never resolved.
    Unresolved,
}

/// A reference to a named type.
#[derive(Debug)]
pub struct TypeRef {
    /// `Namespace.Name`, or `Name` without a namespace.
    pub full_name: String,
    pub namespace: String,
    pub name: String,
    pub target: Target,
}

/// The type of a field (a .NET member signature).
#[derive(Debug)]
pub enum MemberType {
    Primitive(Primitive),
    /// `System.String`.
    Str,
    /// A one-dimensional array `T[]`.
    Vector(Box<MemberType>),
    /// A named, non-generic type.
    Named(TypeRef),
    /// An instantiation of a generic type with the given arguments.
    Generic(TypeRef, Vec<MemberType>),
    /// Any other signature (pointers, generic parameters, `object`, ...).
    Other,
}

/// A field declaration.
#[derive(Debug)]
pub struct FieldDef {
    pub name: String,
    pub public: bool,
    pub static_member: bool,
    pub not_serialized: bool,
    pub init_only: bool,
    pub literal: bool,
    /// Full type names of the field's custom attributes.
    pub attributes: Vec<String>,
    pub ty: MemberType,
}

/// A type definition.
#[derive(Debug)]
pub struct TypeDef {
    pub name: String,
    /// The namespace, empty when there is none.
    pub namespace: String,
    /// `Namespace.Name`, or `Name` without a namespace.
    pub full_name: String,
    /// Whether the type is nested inside another type.
    pub nested: bool,
    pub interface: bool,
    pub serializable: bool,
    pub abstract_type: bool,
    pub generic_params: usize,
    /// The base type, if any.
    pub extends: Option<TypeRef>,
    /// Whether the base type is an instantiation of a generic type.
    pub extends_generic: bool,
    pub fields: Vec<FieldDef>,
}

/// A type that an assembly forwards to another assembly.
#[derive(Debug)]
pub struct Forwarder {
    pub namespace: String,
    pub name: String,
    /// Name of the assembly that now defines the type.
    pub assembly: String,
}

/// A type that an assembly exports, as its metadata lists it.
#[derive(Debug)]
pub struct ExportedType {
    pub namespace: String,
    pub name: String,
    /// The assembly it is forwarded to, when the export is a type forwarder.
    pub forwarded_to: Option<String>,
}

/// The forwarders among the first `n` exported types, in order.
pub open spec fn forwarders_upto(e: Seq<ExportedType>, n: nat) -> Seq<(Seq<char>, Seq<char>, Seq<char>)>
    decreases n,
{
    if n == 0 || n > e.len() {
        Seq::empty()
    } else {
        let p = forwarders_upto(e, (n - 1) as nat);
        let x = e[n - 1];
        match x.forwarded_to {
            Some(a) => p.push((x.namespace@, x.name@, a@)),
            None => p,
        }
    }
}

/// The type forwarders among an assembly's exported types, in order.
pub fn forwarders_of(exports: &Vec<ExportedType>) -> (r: Vec<Forwarder>)
    ensures
        r@.len() == forwarders_upto(exports@, exports@.len()).len(),
        forall|i: int| 0 <= i < r@.len() ==> {
            let f = forwarders_upto(exports@, exports@.len())[i];
            &&& (#[trigger] r@[i]).namespace@ == f.0
            &&& r@[i].name@ == f.1
            &&& r@[i].assembly@ == f.2
        },
{
    let mut r: Vec<Forwarder> = Vec::new();
    for k in 0..exports.len()
        invariant
            r@.len() == forwarders_upto(exports@, k as nat).len(),
            forall|i: int| 0 <= i < r@.len() ==> {
                let f = forwarders_upto(exports@, k as nat)[i];
                &&& (#[trigger] r@[i]).namespace@ == f.0
                &&& r@[i].name@ == f.1
                &&& r@[i].assembly@ == f.2
            },
    {
        let x = &exports[k];
        match &x.forwarded_to {
            Some(a) => {
                r.push(Forwarder { namespace: copy_text(&x.namespace), name: copy_text(&x.name), assembly: copy_text(a) });
            },
            None => {},
        }
    }
    r
}

/// One parsed assembly.
#[derive(Debug)]
pub struct Assembly {
    /// The assembly's own name (e.g. `UnityEngine.CoreModule`), empty if it has none.
    pub name: String,
    pub types: Vec<TypeDef>,
    pub forwarders: Vec<Forwarder>,
}

/// A type definition in a list of loaded assemblies: (assembly index, type index).
pub type TypeId = (usize, usize);

pub open spec fn valid_id(u: Seq<Assembly>, id: TypeId) -> bool {
    id.0 < u.len() && id.1 < u[id.0 as int].types@.len()
}

pub open spec fn tdef(u: Seq<Assembly>, id: TypeId) -> TypeDef {
    u[id.0 as int].types@[id.1 as int]
}

/// Index of the first assembly of `u` at or after `i` named `name`.
pub open spec fn first_assembly(u: Seq<Assembly>, name: Seq<char>, i: int) -> Option<int>
    decreases u.len() - i,
{
    if i < 0 || i >= u.len() {
        None
    } else if u[i].name@ == name {
        Some(i)
    } else {
        first_assembly(u, name, i + 1)
    }
}

/// Index of the first top-level type of `ts` at or after `i` with this namespace and name.
pub open spec fn first_top_level(ts: Seq<TypeDef>, ns: Seq<char>, name: Seq<char>, i: int) -> Option<int>
    decreases ts.len() - i,
{
    if i < 0 || i >= ts.len() {
        None
    } else if !ts[i].nested && ts[i].namespace@ == ns && ts[i].name@ == name {
        Some(i)
    } else {
        first_top_level(ts, ns, name, i + 1)
    }
}

/// Index of the first forwarder of `fs` at or after `i` with this namespace and name.
pub open spec fn first_forwarder(fs: Seq<Forwarder>, ns: Seq<char>, name: Seq<char>, i: int) -> Option<int>
    decreases fs.len() - i,
{
    if i < 0 || i >= fs.len() {
        None
    } else if fs[i].namespace@ == ns && fs[i].name@ == name {
        Some(i)
    } else {
        first_forwarder(fs, ns, name, i + 1)
    }
}

/// The definition of the top-level type `ns.name` that the assembly named
/// `assembly_name` defines, following at most `hops` type forwarders.
pub open spec fn resolve_in(u: Seq<Assembly>, assembly_name: Seq<char>, ns: Seq<char>, name: Seq<char>, hops: nat) -> Option<TypeId>
    decreases hops,
{
    match first_assembly(u, assembly_name, 0) {
        None => None,
        Some(j) => match first_top_level(u[j].types@, ns, name, 0) {
            Some(k) => Some((j as usize, k as usize)),
            None => match first_forwarder(u[j].forwarders@, ns, name, 0) {
                Some(f) => if hops == 0 {
                    None
                } else {
                    resolve_in(u, u[j].forwarders@[f].assembly@, ns, name, (hops - 1) as nat)
                },
                None => None,
            },
        },
    }
}

/// The definition that a reference made from assembly `a` denotes, if it is loaded.
pub open spec fn resolve_ref(u: Seq<Assembly>, a: usize, r: TypeRef) -> Option<TypeId> {
    match r.target {
        Target::Local(i) => if valid_id(u, (a, i)) {
            Some((a, i))
        } else {
            None
        },
        Target::Assembly(n) => resolve_in(u, n@, r.namespace@, r.name@, u.len()),
        Target::Unresolved => None,
    }
}

/// The names of the assemblies that the search of `resolve_in` needs and
/// finds not loaded.
pub open spec fn resolve_in_needs(u: Seq<Assembly>, assembly_name: Seq<char>, ns: Seq<char>, name: Seq<char>, hops: nat) -> Set<Seq<char>>
    decreases hops,
{
    match first_assembly(u, assembly_name, 0) {
        None => Set::empty().insert(assembly_name),
        Some(j) => match first_top_level(u[j].types@, ns, name, 0) {
            Some(k) => Set::empty(),
            None => match first_forwarder(u[j].forwarders@, ns, name, 0) {
                Some(f) => if hops == 0 {
                    Set::empty()
                } else {
                    resolve_in_needs(u, u[j].forwarders@[f].assembly@, ns, name, (hops - 1) as nat)
                },
                None => Set::empty(),
            },
        },
    }
}

/// The names of the assemblies that resolving `r` from assembly `a` needs and finds not loaded.
pub open spec fn resolve_ref_needs(u: Seq<Assembly>, a: usize, r: TypeRef) -> Set<Seq<char>> {
    match r.target {
        Target::Assembly(n) => resolve_in_needs(u, n@, r.namespace@, r.name@, u.len()),
        _ => Set::empty(),
    }
}

/// The names held in `s`.
pub open spec fn names(s: Seq<String>) -> Set<Seq<char>> {
    Set::new(|m: Seq<char>| exists|i: int| 0 <= i < s.len() && (#[trigger] s[i])@ == m)
}

/// `new` holds the names of `old` and, besides them, exactly the names in `added`.
pub open spec fn records(old: Seq<String>, new: Seq<String>, added: Set<Seq<char>>) -> bool {
    names(new) == names(old).union(added)
}

pub proof fn lemma_records_none(s: Seq<String>)
    ensures
        records(s, s, Set::empty()),
{
    assert(names(s) =~= names(s).union(Set::empty()));
}

pub proof fn lemma_records_push(s: Seq<String>, x: String)
    ensures
        records(s, s.push(x), Set::empty().insert(x@)),
{
    let t = s.push(x);
    assert forall|m: Seq<char>| names(t).contains(m) <==> names(s).union(Set::empty().insert(x@)).contains(m) by {
        if names(t).contains(m) {
            let i = choose|i: int| 0 <= i < t.len() && (#[trigger] t[i])@ == m;
            if i < s.len() {
                assert(s[i] == t[i]);
            }
        }
        if names(s).contains(m) {
            let i = choose|i: int| 0 <= i < s.len() && (#[trigger] s[i])@ == m;
            assert(t[i] == s[i]);
        }
        if m == x@ {
            assert(t[s.len() as int] == x);
        }
    }
    assert(names(t) =~= names(s).union(Set::empty().insert(x@)));
}

pub proof fn lemma_records_trans(a: Seq<String>, b: Seq<String>, c: Seq<String>, x: Set<Seq<char>>, y: Set<Seq<char>>)
    requires
        records(a, b, x),
        records(b, c, y),
    ensures
        records(a, c, x.union(y)),
{
    assert(names(c) =~= names(a).union(x.union(y)));
}

/// Clones a string; the copy holds the same characters.
pub fn copy_text(s: &String) -> (r: String)
    ensures
        r@ == s@,
{
    crate::text::owned(s.as_str())
}

fn find_assembly(u: &Vec<Assembly>, name: &str) -> (r: Option<usize>)
    ensures
        match r {
            Some(j) => first_assembly(u@, name@, 0) == Some(j as int),
            None => first_assembly(u@, name@, 0) is None,
        },
{
    let n = u.len();
    let mut i: usize = 0;
    while i < n
        invariant
            n == u@.len(),
            i <= n,
            first_assembly(u@, name@, 0) == first_assembly(u@, name@, i as int),
        decreases n - i,
    {
        if text_eq(u[i].name.as_str(), name) {
            return Some(i);
        }
        i = i + 1;
    }
    None
}

pub fn find_top_level(ts: &Vec<TypeDef>, ns: &str, name: &str) -> (r: Option<usize>)
    ensures
        match r {
            Some(k) => first_top_level(ts@, ns@, name@, 0) == Some(k as int),
            None => first_top_level(ts@, ns@, name@, 0) is None,
        },
{
    let n = ts.len();
    let mut i: usize = 0;
    while i < n
        invariant
            n == ts@.len(),
            i <= n,
            first_top_level(ts@, ns@, name@, 0) == first_top_level(ts@, ns@, name@, i as int),
        decreases n - i,
    {
        let t = &ts[i];
        if !t.nested && text_eq(t.namespace.as_str(), ns) && text_eq(t.name.as_str(), name) {
            return Some(i);
        }
        i = i + 1;
    }
    None
}

pub fn find_forwarder(fs: &Vec<Forwarder>, ns: &str, name: &str) -> (r: Option<usize>)
    ensures
        match r {
            Some(k) => first_forwarder(fs@, ns@, name@, 0) == Some(k as int),
            None => first_forwarder(fs@, ns@, name@, 0) is None,
        },
{
    let n = fs.len();
    let mut i: usize = 0;
    while i < n
        invariant
            n == fs@.len(),
            i <= n,
            first_forwarder(fs@, ns@, name@, 0) == first_forwarder(fs@, ns@, name@, i as int),
        decreases n - i,
    {
        let f = &fs[i];
        if text_eq(f.namespace.as_str(), ns) && text_eq(f.name.as_str(), name) {
            return Some(i);
        }
        i = i + 1;
    }
    None
}

/// Finds the definition of top-level type `ns.name` in the assembly named
/// `assembly_name`, following type forwarders; records in `missing` the name of an
/// assembly that the search needed and that is not loaded.
pub fn resolve_in_assembly(u: &Vec<Assembly>, assembly_name: &str, ns: &str, name: &str, hops: usize, missing: &mut Vec<String>) -> (r: Option<TypeId>)
    ensures
        r == resolve_in(u@, assembly_name@, ns@, name@, hops as nat),
        r matches Some(id) ==> valid_id(u@, id),
        records(old(missing)@, final(missing)@, resolve_in_needs(u@, assembly_name@, ns@, name@, hops as nat)),
    decreases hops,
{
    proof {
        lemma_records_none(missing@);
    }
    match find_assembly(u, assembly_name) {
        None => {
            let ghost before = missing@;
            let n = crate::text::owned(assembly_name);
            missing.push(n);
            proof {
                lemma_records_push(before, n);
            }
            None
        },
        Some(j) => {
            proof {
                lemma_first_assembly_range(u@, assembly_name@, 0);
            }
            match find_top_level(&u[j].types, ns, name) {
                Some(k) => {
                    proof {
                        lemma_first_top_level_in(u@[j as int].types@, ns@, name@, 0);
                    }
                    Some((j, k))
                },
                None => match find_forwarder(&u[j].forwarders, ns, name) {
                    Some(f) => {
                        proof {
                            lemma_first_forwarder_in(u@[j as int].forwarders@, ns@, name@, 0);
                        }
                        if hops == 0 {
                            None
                        } else {
                            resolve_in_assembly(u, u[j].forwarders[f].assembly.as_str(), ns, name, hops - 1, missing)
                        }
                    },
                    None => None,
                },
            }
        },
    }
}

pub proof fn lemma_first_assembly_range(u: Seq<Assembly>, name: Seq<char>, i: int)
    ensures
        first_assembly(u, name, i) matches Some(j) ==> 0 <= j < u.len() && u[j].name@ == name,
    decreases u.len() - i,
{
    if 0 <= i < u.len() && u[i].name@ != name {
        lemma_first_assembly_range(u, name, i + 1);
    }
}

pub proof fn lemma_first_top_level_in(ts: Seq<TypeDef>, ns: Seq<char>, name: Seq<char>, i: int)
    ensures
        first_top_level(ts, ns, name, i) matches Some(j) ==> 0 <= j < ts.len(),
    decreases ts.len() - i,
{
    if 0 <= i < ts.len() {
        lemma_first_top_level_in(ts, ns, name, i + 1);
    }
}

pub proof fn lemma_first_forwarder_in(fs: Seq<Forwarder>, ns: Seq<char>, name: Seq<char>, i: int)
    ensures
        first_forwarder(fs, ns, name, i) matches Some(j) ==> 0 <= j < fs.len(),
    decreases fs.len() - i,
{
    if 0 <= i < fs.len() {
        lemma_first_forwarder_in(fs, ns, name, i + 1);
    }
}

/// Resolves a reference made from assembly `a`; records a needed assembly that is not loaded.
pub fn resolve_type_ref(u: &Vec<Assembly>, a: usize, r: &TypeRef, missing: &mut Vec<String>) -> (res: Option<TypeId>)
    ensures
        res == resolve_ref(u@, a, *r),
        res matches Some(id) ==> valid_id(u@, id),
        records(old(missing)@, final(missing)@, resolve_ref_needs(u@, a, *r)),
{
    proof {
        lemma_records_none(missing@);
    }
    match &r.target {
        Target::Local(i) => {
            if a < u.len() && *i < u[a].types.len() {
                Some((a, *i))
            } else {
                None
            }
        },
        Target::Assembly(n) => resolve_in_assembly(u, n.as_str(), r.namespace.as_str(), r.name.as_str(), u.len(), missing),
        Target::Unresolved => None,
    }
}

} // verus!
