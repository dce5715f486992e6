use unity_typetree_gen::field::TemplateField;
use unity_typetree_gen::template::{
    bool_f, float_f, int_f, leaf, node, pptr_field, string_field, vector, vector3f, vector_with_type,
};
use unity_typetree_gen::typetree::{assemble, build_node, byte_size, classify, is_pod_value_type, sizes_fit, NodeKind, TypeTreeNode, ALIGN_FLAG};
use unity_typetree_gen::UnityVersion;

fn v2020() -> UnityVersion {
    UnityVersion { major: 2020, minor: 3, patch: 0 }
}

fn flat(n: &TypeTreeNode) -> Vec<(usize, String, String, i32, i32, i32)> {
    fn walk(n: &TypeTreeNode, level: usize, out: &mut Vec<(usize, String, String, i32, i32, i32)>) {
        out.push((level, n.ty.clone(), n.name.clone(), n.byte_size, n.meta_flag, n.type_flags));
        for c in &n.children {
            walk(c, level + 1, out);
        }
    }
    let mut out = Vec::new();
    walk(n, 0, &mut out);
    out
}

fn row(level: usize, ty: &str, name: &str, size: i32, meta: i32, flags: i32) -> (usize, String, String, i32, i32, i32) {
    (level, ty.to_string(), name.to_string(), size, meta, flags)
}

#[test]
fn classify_calls_rabex() {
    assert_eq!(classify("float", &vec![]), NodeKind::Float);
    assert_eq!(classify("string", &vec![]), NodeKind::Str);
    assert_eq!(classify("Array", &vec![]), NodeKind::Array);
    assert_eq!(classify("MyStruct", &vec![]), NodeKind::Empty);
    assert_eq!(classify("MyStruct", &vec!["int".to_string()]), NodeKind::Struct);
    assert_eq!(classify("vector", &vec!["Array".to_string()]), NodeKind::ArrayWrapper);
    assert_eq!(classify("unsigned short", &vec![]), NodeKind::U16);
    assert_eq!(classify("TypelessData", &vec![]), NodeKind::Untyped);
}

#[test]
fn struct_sizes_add_up() {
    let n = build_node(&vector3f("pos")).unwrap();
    assert_eq!(
        flat(&n),
        vec![
            row(0, "Vector3f", "pos", 12, 0, 0),
            row(1, "float", "x", 4, 0, 0),
            row(1, "float", "y", 4, 0, 0),
            row(1, "float", "z", 4, 0, 0),
        ]
    );
    assert!(is_pod_value_type(&n));
}

#[test]
fn variable_member_makes_struct_variable() {
    let f = node("s", "MyStruct", false, vec![int_f("a"), string_field("b")]);
    let n = build_node(&f).unwrap();
    assert_eq!(n.byte_size, -1);
    assert_eq!(n.children[1].byte_size, -1);
    assert!(!is_pod_value_type(&n));
}

#[test]
fn arrays_of_scalars_and_strings_align() {
    let n = build_node(&vector(float_f("values"))).unwrap();
    assert_eq!(
        flat(&n),
        vec![
            row(0, "vector", "values", -1, 0, 0),
            row(1, "Array", "Array", -1, ALIGN_FLAG, 1),
            row(2, "int", "size", 4, 0, 0),
            row(2, "float", "data", 4, 0, 0),
        ]
    );
    let s = build_node(&vector_with_type(string_field("names"))).unwrap();
    assert_eq!(s.children[0].meta_flag, ALIGN_FLAG);
    assert_eq!(s.children[0].type_flags, 1);
}

#[test]
fn arrays_of_pptrs_and_odd_structs_do_not_align() {
    let p = build_node(&vector(pptr_field("refs", "Texture2D", &v2020()))).unwrap();
    assert_eq!(p.children[0].meta_flag, 0);
    let odd = node("o", "Odd", false, vec![int_f("a"), bool_f("b", true)]);
    let built = build_node(&odd).unwrap();
    assert_eq!(built.byte_size, 5);
    assert_eq!(built.meta_flag, 0);
    assert!(!is_pod_value_type(&built));
    let v = build_node(&vector_with_type(node("o", "Odd", false, vec![int_f("a"), bool_f("b", true)]))).unwrap();
    assert_eq!(v.children[0].meta_flag, 0);
    let good = build_node(&vector_with_type(vector3f("p"))).unwrap();
    assert_eq!(good.children[0].meta_flag, ALIGN_FLAG);
}

#[test]
fn aligned_template_node_gets_align_flag() {
    let n = build_node(&bool_f("flag", true)).unwrap();
    assert_eq!(flat(&n), vec![row(0, "bool", "flag", 1, ALIGN_FLAG, 0)]);
    let e = build_node(&leaf("x", "Empty", false)).unwrap();
    assert_eq!(e.byte_size, 0);
}

#[test]
fn byte_size_of_built_children() {
    let n = build_node(&node("s", "S", false, vec![int_f("a"), float_f("b")])).unwrap();
    assert_eq!(byte_size(&n), 8);
}

#[test]
fn root_is_variable_base() {
    let children: Vec<TemplateField> = vec![int_f("a"), float_f("b")];
    let root = assemble(children, "Player").unwrap();
    assert_eq!(
        flat(&root),
        vec![
            row(0, "Player", "Base", -1, 0, 0),
            row(1, "int", "a", 4, 0, 0),
            row(1, "float", "b", 4, 0, 0),
        ]
    );
    let empty = assemble(Vec::new(), "MonoBehaviour").unwrap();
    assert!(empty.children.is_empty());
    assert_eq!(empty.byte_size, -1);
}

fn sized(ty: &str, size: i32) -> TypeTreeNode {
    TypeTreeNode { ty: ty.to_string(), name: "m".to_string(), byte_size: size, type_flags: 0, meta_flag: 0, children: vec![] }
}

#[test]
fn sizes_that_overflow_are_caught() {
    let big = TypeTreeNode {
        ty: "Big".to_string(),
        name: "b".to_string(),
        byte_size: 0,
        type_flags: 0,
        meta_flag: 0,
        children: vec![sized("S", 0x4000_0000), sized("S", 0x4000_0000)],
    };
    assert!(!sizes_fit(&big));
    let stopped = TypeTreeNode {
        ty: "Big".to_string(),
        name: "b".to_string(),
        byte_size: 0,
        type_flags: 0,
        meta_flag: 0,
        children: vec![sized("S", 0x4000_0000), sized("S", -1), sized("S", 0x7fff_ffff)],
    };
    assert!(sizes_fit(&stopped));
    assert_eq!(byte_size(&stopped), -1);
    let fits = TypeTreeNode {
        ty: "Big".to_string(),
        name: "b".to_string(),
        byte_size: 0,
        type_flags: 0,
        meta_flag: 0,
        children: vec![sized("S", 0x4000_0000), sized("S", 0x3fff_ffff)],
    };
    assert!(sizes_fit(&fits));
    assert_eq!(byte_size(&fits), 0x7fff_ffff);
}
