use unity_typetree_gen::assembly::{AssemblyTypeTreeGenerator, Step};
use unity_typetree_gen::metadata::{forwarders_of, Assembly, ExportedType, FieldDef, Forwarder, MemberType, Primitive, Target, TypeDef, TypeRef};
use unity_typetree_gen::typetree::{TypeTreeNode, ALIGN_FLAG};
use unity_typetree_gen::UnityVersion;

fn s(x: &str) -> String {
    x.to_string()
}

fn full(ns: &str, name: &str) -> String {
    if ns.is_empty() { s(name) } else { format!("{ns}.{name}") }
}

fn ext(ns: &str, name: &str, assembly: &str) -> TypeRef {
    TypeRef { full_name: full(ns, name), namespace: s(ns), name: s(name), target: Target::Assembly(s(assembly)) }
}

fn local(ns: &str, name: &str, i: usize) -> TypeRef {
    TypeRef { full_name: full(ns, name), namespace: s(ns), name: s(name), target: Target::Local(i) }
}

fn system(name: &str) -> TypeRef {
    TypeRef { full_name: full("System", name), namespace: s("System"), name: s(name), target: Target::Unresolved }
}

fn fld(name: &str, public: bool, attrs: &[&str], ty: MemberType) -> FieldDef {
    FieldDef {
        name: s(name),
        public,
        static_member: false,
        not_serialized: false,
        init_only: false,
        literal: false,
        attributes: attrs.iter().map(|a| s(a)).collect(),
        ty,
    }
}

fn prim(p: Primitive) -> MemberType {
    MemberType::Primitive(p)
}

fn list_of(m: MemberType) -> MemberType {
    MemberType::Generic(system_generic_list(), vec![m])
}

fn system_generic_list() -> TypeRef {
    TypeRef {
        full_name: s("System.Collections.Generic.List`1"),
        namespace: s("System.Collections.Generic"),
        name: s("List`1"),
        target: Target::Unresolved,
    }
}

fn tdef(ns: &str, name: &str, extends: Option<TypeRef>, fields: Vec<FieldDef>, serializable: bool) -> TypeDef {
    TypeDef {
        name: s(name),
        namespace: s(ns),
        full_name: full(ns, name),
        nested: false,
        interface: false,
        serializable,
        abstract_type: false,
        generic_params: 0,
        extends,
        extends_generic: false,
        fields,
    }
}

fn nested(mut t: TypeDef) -> TypeDef {
    t.nested = true;
    t
}

const CORE_NAMES: [&str; 9] = [
    "Object", "Component", "Behaviour", "MonoBehaviour", "ScriptableObject", "ForwardedAsset", "Vector3", "Bounds",
    "Texture2D",
];

fn core_module() -> Assembly {
    let u = "UnityEngine";
    let f = |n: &str| fld(n, true, &[], prim(Primitive::Float32));
    Assembly {
        name: s("UnityEngine.CoreModule"),
        types: vec![
            tdef(u, "Object", Some(system("Object")), vec![], false),
            tdef(u, "Component", Some(local(u, "Object", 0)), vec![], false),
            tdef(u, "Behaviour", Some(local(u, "Component", 1)), vec![], false),
            tdef(u, "MonoBehaviour", Some(local(u, "Behaviour", 2)), vec![], false),
            tdef(u, "ScriptableObject", Some(local(u, "Object", 0)), vec![], false),
            tdef(
                u,
                "ForwardedAsset",
                Some(local(u, "MonoBehaviour", 3)),
                vec![fld("value", true, &[], prim(Primitive::Int32)), fld("label", true, &[], MemberType::Str)],
                false,
            ),
            tdef(u, "Vector3", Some(system("ValueType")), vec![f("x"), f("y"), f("z")], true),
            tdef(u, "Bounds", Some(system("ValueType")), vec![f("cx")], true),
            tdef(u, "Texture2D", Some(local(u, "Object", 0)), vec![], false),
        ],
        forwarders: vec![],
    }
}

fn facade() -> Assembly {
    Assembly {
        name: s("UnityEngine"),
        types: vec![],
        forwarders: CORE_NAMES
            .iter()
            .map(|n| Forwarder { namespace: s("UnityEngine"), name: s(n), assembly: s("UnityEngine.CoreModule") })
            .collect(),
    }
}

fn fixtures() -> Assembly {
    let fx = "Fixtures";
    let mono = || Some(ext("UnityEngine", "MonoBehaviour", "UnityEngine"));
    let unity = |n: &str| MemberType::Named(ext("UnityEngine", n, "UnityEngine"));
    let mut hidden = fld("hidden", false, &[], prim(Primitive::Boolean));
    hidden.public = false;
    let mut stat = fld("counter", true, &[], prim(Primitive::Int32));
    stat.static_member = true;
    let mut nonser = fld("cache", true, &[], prim(Primitive::Int32));
    nonser.not_serialized = true;
    let mut konst = fld("Max", true, &[], prim(Primitive::Int32));
    konst.literal = true;
    let mut enum_a = fld("A", true, &[], MemberType::Named(local(fx, "MyEnum", 2)));
    enum_a.static_member = true;
    enum_a.literal = true;
    Assembly {
        name: s("Fixtures"),
        types: vec![
            // 0
            tdef(
                fx,
                "Primitives",
                mono(),
                vec![
                    fld("i", true, &[], prim(Primitive::Int32)),
                    fld("f", true, &[], prim(Primitive::Float32)),
                    hidden,
                    fld("b", false, &["UnityEngine.SerializeField"], prim(Primitive::UInt8)),
                    stat,
                    nonser,
                    konst,
                    fld("str", true, &[], MemberType::Str),
                ],
                false,
            ),
            // 1
            tdef(fx, "Inheritance", Some(local(fx, "Primitives", 0)), vec![fld("d", true, &[], prim(Primitive::Float64))], false),
            // 2
            tdef(fx, "MyEnum", Some(system("Enum")), vec![fld("value__", true, &[], prim(Primitive::Int16)), enum_a], false),
            // 3
            tdef(
                fx,
                "Enums",
                mono(),
                vec![
                    fld("e", true, &[], MemberType::Named(local(fx, "MyEnum", 2))),
                    fld("list", true, &[], list_of(MemberType::Named(local(fx, "MyEnum", 2)))),
                ],
                false,
            ),
            // 4
            tdef(fx, "Outer", Some(system("Object")), vec![fld("n", true, &[], prim(Primitive::Int32))], true),
            // 5
            nested(tdef("", "Inner", Some(system("Object")), vec![], true)),
            // 6
            nested(tdef("", "NestedMonoBehaviour", mono(), vec![], false)),
            // 7
            tdef(
                fx,
                "SpecialTypes",
                mono(),
                vec![
                    fld("pos", true, &[], unity("Vector3")),
                    fld("box", true, &[], unity("Bounds")),
                    fld("tex", true, &[], unity("Texture2D")),
                    fld("texes", true, &[], MemberType::Vector(Box::new(unity("Texture2D")))),
                    fld("nums", true, &[], MemberType::Vector(Box::new(prim(Primitive::Int32)))),
                    fld("grid", true, &[], list_of(list_of(prim(Primitive::Int32)))),
                ],
                false,
            ),
            // 8
            tdef(
                fx,
                "ManagedRefs",
                mono(),
                vec![fld("r", true, &["UnityEngine.SerializeReference"], MemberType::Named(local(fx, "Outer", 4)))],
                false,
            ),
            // 9
            tdef(fx, "Holder", mono(), vec![fld("outer", true, &[], MemberType::Named(local(fx, "Outer", 4)))], false),
            // 10
            tdef(fx, "Settings", Some(ext("UnityEngine", "ScriptableObject", "UnityEngine")), vec![], false),
        ],
        forwarders: vec![],
    }
}

fn files(name: &str) -> Option<Assembly> {
    match name {
        "Fixtures.dll" => Some(fixtures()),
        "UnityEngine.dll" => Some(facade()),
        "UnityEngine.CoreModule.dll" => Some(core_module()),
        _ => None,
    }
}

fn new_generator() -> AssemblyTypeTreeGenerator {
    AssemblyTypeTreeGenerator::new(UnityVersion::parse("6000.0.0f1"))
}

/// Runs one generation, reading files through `files` and recording each read.
fn run(g: &mut AssemblyTypeTreeGenerator, loads: &mut Vec<String>, assembly: &str, ns: &str, name: &str) -> Option<TypeTreeNode> {
    let mut absent: Vec<String> = Vec::new();
    loop {
        match g.generate(assembly, ns, name, &absent) {
            Step::Load(f) => {
                loads.push(f.clone());
                match files(&f) {
                    Some(m) => g.add_assembly(f, Some(m)),
                    None => absent.push(f),
                }
            },
            Step::Done(r) => return r.expect("tree too large"),
        }
    }
}

fn load_all(g: &mut AssemblyTypeTreeGenerator, names: &[&str]) {
    for n in names {
        let absent: Vec<String> = Vec::new();
        if let Step::Load(f) = g.load_assembly(n, &absent) {
            let m = files(&f);
            g.add_assembly(f, m);
        }
    }
}

fn definitions(g: &mut AssemblyTypeTreeGenerator) -> Vec<(String, Vec<String>)> {
    let mut absent: Vec<String> = Vec::new();
    let before = g.parsed_count();
    loop {
        match g.monobehaviour_definitions(before, &absent) {
            Step::Load(f) => match files(&f) {
                Some(m) => g.add_assembly(f, Some(m)),
                None => absent.push(f),
            },
            Step::Done(d) => return d,
        }
    }
}

fn names(defs: &[(String, Vec<String>)]) -> Vec<String> {
    defs.iter().flat_map(|(_, v)| v.iter().cloned()).collect()
}

fn flat(n: &TypeTreeNode) -> Vec<(usize, String, String, i32)> {
    fn walk(n: &TypeTreeNode, level: usize, out: &mut Vec<(usize, String, String, i32)>) {
        out.push((level, n.ty.clone(), n.name.clone(), n.meta_flag));
        for c in &n.children {
            walk(c, level + 1, out);
        }
    }
    let mut out = Vec::new();
    walk(n, 0, &mut out);
    out
}

fn row(level: usize, ty: &str, name: &str, meta: i32) -> (usize, String, String, i32) {
    (level, s(ty), s(name), meta)
}

#[test]
fn primitives_tree() {
    let mut g = new_generator();
    let mut loads = Vec::new();
    let t = run(&mut g, &mut loads, "Fixtures.dll", "Fixtures", "Primitives").unwrap();
    assert_eq!(
        flat(&t),
        vec![
            row(0, "Primitives", "Base", 0),
            row(1, "int", "i", 0),
            row(1, "float", "f", 0),
            row(1, "UInt8", "b", ALIGN_FLAG),
            row(1, "string", "str", 0),
            row(2, "Array", "Array", ALIGN_FLAG),
            row(3, "int", "size", 0),
            row(3, "char", "data", 0),
        ]
    );
    assert_eq!(t.byte_size, -1);
}

#[test]
fn inherited_fields_come_first() {
    let mut g = new_generator();
    let mut loads = Vec::new();
    let t = run(&mut g, &mut loads, "Fixtures.dll", "Fixtures", "Inheritance").unwrap();
    let names: Vec<String> = t.children.iter().map(|c| c.name.clone()).collect();
    assert_eq!(names, vec![s("i"), s("f"), s("b"), s("str"), s("d")]);
    assert_eq!(t.children[4].ty, "double");
}

#[test]
fn enums_use_their_underlying_type() {
    let mut g = new_generator();
    let mut loads = Vec::new();
    let t = run(&mut g, &mut loads, "Fixtures.dll", "Fixtures", "Enums").unwrap();
    assert_eq!(
        flat(&t),
        vec![
            row(0, "Enums", "Base", 0),
            row(1, "SInt16", "e", ALIGN_FLAG),
            row(1, "vector", "list", 0),
            row(2, "Array", "Array", ALIGN_FLAG),
            row(3, "int", "size", 0),
            row(3, "SInt16", "data", 0),
        ]
    );
}

#[test]
fn special_types_across_assemblies() {
    let mut g = new_generator();
    let mut loads = Vec::new();
    let t = run(&mut g, &mut loads, "Fixtures.dll", "Fixtures", "SpecialTypes").unwrap();
    assert_eq!(loads, vec![s("Fixtures.dll"), s("UnityEngine.dll"), s("UnityEngine.CoreModule.dll")]);
    let kids: Vec<(String, String)> = t.children.iter().map(|c| (c.ty.clone(), c.name.clone())).collect();
    assert_eq!(
        kids,
        vec![
            (s("Vector3"), s("pos")),
            (s("Bounds"), s("box")),
            (s("PPtr<$Texture2D>"), s("tex")),
            (s("vector"), s("texes")),
            (s("vector"), s("nums")),
        ]
    );
    assert_eq!(t.children[0].children.len(), 3);
    assert_eq!(t.children[0].byte_size, 12);
    assert_eq!(t.children[1].children[0].ty, "Vector3f");
    assert_eq!(t.children[2].children[1].ty, "SInt64");
    assert_eq!(t.children[3].children[0].meta_flag, 0);
    assert_eq!(t.children[4].children[0].meta_flag, ALIGN_FLAG);
}

#[test]
fn serialize_reference_adds_registry() {
    let mut g = new_generator();
    let mut loads = Vec::new();
    let t = run(&mut g, &mut loads, "Fixtures.dll", "Fixtures", "ManagedRefs").unwrap();
    assert_eq!(t.children.len(), 2);
    assert_eq!(t.children[0].ty, "managedReference");
    assert_eq!(t.children[0].children[0].name, "rid");
    assert_eq!(t.children[1].ty, "ManagedReferencesRegistry");
    assert_eq!(t.children[1].name, "references");
}

#[test]
fn serializable_class_fields_nest() {
    let mut g = new_generator();
    let mut loads = Vec::new();
    let t = run(&mut g, &mut loads, "Fixtures.dll", "Fixtures", "Holder").unwrap();
    assert_eq!(flat(&t), vec![row(0, "Holder", "Base", 0), row(1, "Outer", "outer", 0), row(2, "int", "n", 0)]);
}

#[test]
fn missing_assembly_gives_none() {
    let mut g = new_generator();
    let mut loads = Vec::new();
    assert!(run(&mut g, &mut loads, "Nope.dll", "X", "Y").is_none());
    assert_eq!(loads, vec![s("Nope.dll")]);
}

#[test]
fn unparsable_assembly_gives_none_and_is_read_once() {
    let mut g = new_generator();
    g.add_assembly(s("Broken.dll"), None);
    assert!(g.is_known("Broken.dll"));
    let absent: Vec<String> = Vec::new();
    match g.generate("Broken.dll", "X", "Y", &absent) {
        Step::Done(Ok(None)) => {},
        _ => panic!("expected no tree"),
    }
    match g.load_assembly("Broken.dll", &absent) {
        Step::Done(false) => {},
        _ => panic!("expected known and unparsed"),
    }
}

/// A type that doesn't exist in the assembly must report not-found (`None`);
/// a real, field-less MonoBehaviour still resolves (Some, just the Base node).
#[test]
fn missing_type_is_none() {
    let mut g = new_generator();
    let mut loads = Vec::new();
    assert!(run(&mut g, &mut loads, "Fixtures.dll", "Fixtures", "NoSuchType").is_none());
    let empty = run(&mut g, &mut loads, "UnityEngine.CoreModule.dll", "UnityEngine", "MonoBehaviour")
        .expect("MonoBehaviour resolves");
    assert!(empty.children.is_empty(), "expected only the Base node, got {empty:?}");
}

/// `Inner` exists only as a nested type; a top-level lookup must not match it.
#[test]
fn nested_type_not_matched_as_top_level() {
    let mut g = new_generator();
    let mut loads = Vec::new();
    assert!(run(&mut g, &mut loads, "Fixtures.dll", "", "Inner").is_none());
}

/// Generating via the facade follows the forwarder to the module that defines the type.
#[test]
fn type_forwarder() {
    let mut g = new_generator();
    let mut loads = Vec::new();
    let t = run(&mut g, &mut loads, "UnityEngine.dll", "UnityEngine", "ForwardedAsset").expect("forwarded type");
    assert_eq!(loads, vec![s("UnityEngine.dll"), s("UnityEngine.CoreModule.dll")]);
    let names: Vec<String> = t.children.iter().map(|c| c.name.clone()).collect();
    assert_eq!(names, vec![s("value"), s("label")]);
    assert_eq!(t.ty, "ForwardedAsset");
    let direct = run(&mut g, &mut loads, "UnityEngine.CoreModule.dll", "UnityEngine", "ForwardedAsset").expect("defined type");
    assert_eq!(flat(&t), flat(&direct));
}

/// Only the assemblies actually touched are read, and each only once.
#[test]
fn lazy_loader_only_loads_what_is_used() {
    let mut g = new_generator();
    let mut loads = Vec::new();
    let primitives = run(&mut g, &mut loads, "Fixtures.dll", "Fixtures", "Primitives").expect("generate Primitives");
    assert_eq!(loads, vec![s("Fixtures.dll")]);
    let mut fresh_loads = Vec::new();
    let again = run(&mut new_generator(), &mut fresh_loads, "Fixtures.dll", "Fixtures", "Primitives").unwrap();
    assert_eq!(flat(&primitives), flat(&again));
    run(&mut g, &mut loads, "Fixtures.dll", "Fixtures", "Enums").expect("generate Enums");
    assert_eq!(loads, vec![s("Fixtures.dll")]);
}

/// A MonoBehaviour nested in another type is not listed.
#[test]
fn monobehaviour_definitions_excludes_nested_monobehaviours() {
    let mut g = new_generator();
    load_all(&mut g, &["Fixtures.dll", "UnityEngine.CoreModule.dll"]);
    let defs = definitions(&mut g);
    let names = names(&defs);
    assert!(!names.contains(&s("NestedMonoBehaviour")), "nested MonoBehaviour must not be returned");
    assert!(names.contains(&s("Fixtures.Primitives")));
    assert!(names.contains(&s("Fixtures.Inheritance")));
}

/// MonoBehaviour itself and its ancestors are not listed; ScriptableObject is excluded.
#[test]
fn monobehaviour_definitions_excludes_base_classes() {
    let mut g = new_generator();
    load_all(&mut g, &["UnityEngine.CoreModule.dll"]);
    let defs = definitions(&mut g);
    let names = names(&defs);
    assert!(names.contains(&s("UnityEngine.ForwardedAsset")), "ForwardedAsset must be included");
    assert!(!names.contains(&s("UnityEngine.MonoBehaviour")), "MonoBehaviour itself must not be returned");
    assert!(!names.contains(&s("UnityEngine.Behaviour")));
    assert!(!names.contains(&s("UnityEngine.Component")));
    assert!(!names.contains(&s("UnityEngine.Object")));
    assert!(!names.contains(&s("UnityEngine.ScriptableObject")));
}

#[test]
fn definitions_group_by_file() {
    let mut g = new_generator();
    load_all(&mut g, &["Fixtures.dll", "UnityEngine.CoreModule.dll"]);
    let defs = definitions(&mut g);
    assert_eq!(defs.len(), 2);
    assert_eq!(defs[0].0, "Fixtures.dll");
    assert_eq!(
        defs[0].1,
        vec![
            s("Fixtures.Primitives"),
            s("Fixtures.Inheritance"),
            s("Fixtures.Enums"),
            s("Fixtures.SpecialTypes"),
            s("Fixtures.ManagedRefs"),
            s("Fixtures.Holder"),
        ]
    );
    assert_eq!(defs[1].0, "UnityEngine.CoreModule.dll");
    assert_eq!(defs[1].1, vec![s("UnityEngine.ForwardedAsset")]);
}

/// A field whose type lives in an assembly that cannot be found asks for
/// that assembly once, then is left out of the tree.
#[test]
fn field_of_absent_assembly_is_asked_for_then_dropped() {
    let mine = Assembly {
        name: s("Mine"),
        types: vec![tdef(
            "Mine",
            "Uses",
            Some(ext("UnityEngine", "MonoBehaviour", "UnityEngine.CoreModule")),
            vec![
                fld("thing", true, &[], MemberType::Named(ext("Other", "Thing", "Other"))),
                fld("count", true, &[], prim(Primitive::Int32)),
            ],
            false,
        )],
        forwarders: vec![],
    };
    let mut g = new_generator();
    g.add_assembly(s("Mine.dll"), Some(mine));
    let mut absent: Vec<String> = Vec::new();
    let mut asked: Vec<String> = Vec::new();
    let tree = loop {
        match g.generate("Mine.dll", "Mine", "Uses", &absent) {
            Step::Load(f) => {
                asked.push(f.clone());
                absent.push(f);
            },
            Step::Done(r) => break r.expect("tree too large").expect("type found"),
        }
    };
    assert_eq!(asked, vec![s("Other.dll")]);
    assert_eq!(flat(&tree), vec![row(0, "Uses", "Base", 0), row(1, "int", "count", 0)]);
}

/// Only the assemblies loaded before the listing are listed, even when a base
/// type's assembly, loaded during the listing, defines MonoBehaviours itself.
#[test]
fn definitions_list_only_assemblies_loaded_before() {
    let game = Assembly {
        name: s("Game"),
        types: vec![tdef("", "A", Some(ext("Plugin", "B", "Plugin")), vec![], false)],
        forwarders: vec![],
    };
    let plugin = Assembly {
        name: s("Plugin"),
        types: vec![tdef("Plugin", "B", Some(ext("UnityEngine", "MonoBehaviour", "UnityEngine.CoreModule")), vec![], false)],
        forwarders: vec![],
    };
    let mut g = new_generator();
    g.add_assembly(s("Game.dll"), Some(game));
    let before = g.parsed_count();
    let absent: Vec<String> = Vec::new();
    let mut plugin = Some(plugin);
    let defs = loop {
        match g.monobehaviour_definitions(before, &absent) {
            Step::Load(f) => {
                assert_eq!(f, "Plugin.dll");
                g.add_assembly(f, plugin.take());
            },
            Step::Done(d) => break d,
        }
    };
    assert_eq!(defs.len(), 1);
    assert_eq!(defs[0].0, "Game.dll");
    assert_eq!(defs[0].1, vec![s("A")]);
}

/// Only the exported types that are forwarded become forwarders, in order.
#[test]
fn forwarders_are_the_forwarded_exports() {
    let exports = vec![
        ExportedType { namespace: s("UnityEngine"), name: s("A"), forwarded_to: Some(s("UnityEngine.CoreModule")) },
        ExportedType { namespace: s("UnityEngine"), name: s("Local"), forwarded_to: None },
        ExportedType { namespace: s(""), name: s("B"), forwarded_to: Some(s("Other")) },
    ];
    let f = forwarders_of(&exports);
    assert_eq!(f.len(), 2);
    assert_eq!((f[0].namespace.as_str(), f[0].name.as_str(), f[0].assembly.as_str()), ("UnityEngine", "A", "UnityEngine.CoreModule"));
    assert_eq!((f[1].namespace.as_str(), f[1].name.as_str(), f[1].assembly.as_str()), ("", "B", "Other"));
}

/// The listing is ordered by file name, whatever the load order.
#[test]
fn definitions_are_sorted_by_file_name() {
    let mut g = new_generator();
    load_all(&mut g, &["UnityEngine.CoreModule.dll", "Fixtures.dll"]);
    let defs = definitions(&mut g);
    let keys: Vec<String> = defs.iter().map(|(k, _)| k.clone()).collect();
    assert_eq!(keys, vec![s("Fixtures.dll"), s("UnityEngine.CoreModule.dll")]);
}
