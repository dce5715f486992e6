use unity_typetree_gen::field::TemplateField;
use unity_typetree_gen::template::{
    array_of, convert_base_to_primitive, gradient_children, gui_style_children, int_f,
    is_assembly_blacklisted, is_special_unity_type, keyframe, managed_reference_children,
    managed_references_registry, pptr_children, pptr_field, special_unity_children,
    string_children, type_aligns_by_name, vector, vector3f, vector_with_type, leaf, sbyte, node,
};
use unity_typetree_gen::UnityVersion;

fn v(major: u32, minor: u32, patch: u32) -> UnityVersion {
    UnityVersion { major, minor, patch }
}

/// (type, name, aligned) of a node and its descendants, depth-first, with levels.
fn flat(f: &TemplateField) -> Vec<(usize, String, String, bool)> {
    fn walk(f: &TemplateField, level: usize, out: &mut Vec<(usize, String, String, bool)>) {
        out.push((level, f.ty.clone(), f.name.clone(), f.aligned));
        for c in &f.children {
            walk(c, level + 1, out);
        }
    }
    let mut out = Vec::new();
    walk(f, 0, &mut out);
    out
}

fn row(level: usize, ty: &str, name: &str, aligned: bool) -> (usize, String, String, bool) {
    (level, ty.to_string(), name.to_string(), aligned)
}

#[test]
fn vector_wraps_an_array() {
    let r = vector(sbyte("bytes", true));
    assert_eq!(
        flat(&r),
        vec![
            row(0, "vector", "bytes", false),
            row(1, "Array", "Array", false),
            row(2, "int", "size", false),
            row(2, "SInt8", "data", false),
        ]
    );
}

#[test]
fn vector_with_type_keeps_the_type() {
    let r = vector_with_type(vector3f("points"));
    assert_eq!(
        flat(&r),
        vec![
            row(0, "Vector3f", "points", false),
            row(1, "Array", "Array", false),
            row(2, "int", "size", false),
            row(2, "Vector3f", "data", false),
            row(3, "float", "x", false),
            row(3, "float", "y", false),
            row(3, "float", "z", false),
        ]
    );
}

#[test]
fn string_children_are_a_char_array() {
    let c = string_children();
    assert_eq!(c.len(), 1);
    assert_eq!(
        flat(&c[0]),
        vec![row(0, "Array", "Array", false), row(1, "int", "size", false), row(1, "char", "data", false)]
    );
    let a = array_of(leaf("x", "float", true));
    assert_eq!(flat(&a[0])[2], row(1, "float", "data", false));
}

#[test]
fn pptr_children_by_version() {
    let new = pptr_children(&v(5, 0, 0));
    assert_eq!(new[1].ty, "SInt64");
    let old = pptr_children(&v(4, 7, 2));
    assert_eq!(old[1].ty, "int");
    assert_eq!(old[0].name, "m_FileID");
    let p = pptr_field("m_Font", "Font", &v(2020, 1, 0));
    assert_eq!(p.ty, "PPtr<Font>");
}

#[test]
fn managed_references_by_version() {
    assert_eq!(managed_reference_children(&v(2021, 2, 0))[0].ty, "SInt64");
    assert_eq!(managed_reference_children(&v(2021, 2, 0))[0].name, "rid");
    assert_eq!(managed_reference_children(&v(2021, 1, 9))[0].name, "id");
    let reg = managed_references_registry("references", &v(2022, 1, 0));
    assert_eq!(reg.ty, "ManagedReferencesRegistry");
    assert_eq!(reg.children[1].ty, "vector");
    assert_eq!(reg.children[1].name, "RefIds");
    let old = managed_references_registry("references", &v(2019, 4, 0));
    assert_eq!(old.children[1].name, "00000000");
    assert_eq!(old.children[1].children.len(), 2);
}

#[test]
fn gui_style_layouts() {
    let new = gui_style_children(&v(2019, 4, 0));
    let old = gui_style_children(&v(3, 5, 0));
    assert_eq!(new.len(), 26);
    assert_eq!(old.len(), 26);
    assert_eq!(new[10].name, "m_Margin");
    assert_eq!(old[10].name, "m_Padding");
    assert_eq!(new.last().unwrap().name, "m_StretchHeight");
    assert!(new.last().unwrap().aligned);
}

#[test]
fn gradient_layouts() {
    let modern = gradient_children(&v(2022, 2, 0));
    assert_eq!(modern.len(), 8 + 8 + 8 + 2 + 2);
    assert_eq!(modern[0].name, "key0");
    assert_eq!(modern[7].name, "key7");
    assert_eq!(modern[8].name, "ctime0");
    assert_eq!(modern[23].name, "atime7");
    assert_eq!(modern[25].name, "m_ColorSpace");
    assert!(modern[27].aligned);
    let mid = gradient_children(&v(2019, 4, 0));
    assert_eq!(mid.len(), 27);
    assert_eq!(mid[24].ty, "int");
    let old = gradient_children(&v(5, 5, 0));
    assert_eq!(old.len(), 8);
    assert_eq!(old[3].name, "key3");
    assert_eq!(old[3].children[0].ty, "unsigned int");
}

#[test]
fn keyframe_layouts() {
    assert_eq!(keyframe("k", &v(2018, 1, 0)).children.len(), 7);
    assert_eq!(keyframe("k", &v(2017, 4, 0)).children.len(), 4);
}

#[test]
fn special_children() {
    assert!(special_unity_children("Vector3", &v(2020, 1, 0)).is_none());
    let b = special_unity_children("Bounds", &v(2020, 1, 0)).unwrap();
    assert_eq!(b.len(), 2);
    assert_eq!(b[0].ty, "Vector3f");
    assert_eq!(special_unity_children("LayerMask", &v(2020, 1, 0)).unwrap()[0].name, "m_Bits");
    let ac = special_unity_children("AnimationCurve", &v(5, 3, 0)).unwrap();
    assert_eq!(ac.len(), 4);
    assert_eq!(special_unity_children("AnimationCurve", &v(5, 2, 0)).unwrap().len(), 3);
}

#[test]
fn name_tables() {
    assert!(type_aligns_by_name("bool"));
    assert!(type_aligns_by_name("unsigned short"));
    assert!(!type_aligns_by_name("int"));
    assert!(!type_aligns_by_name("string"));
    assert_eq!(convert_base_to_primitive("System.Boolean"), Some("UInt8"));
    assert_eq!(convert_base_to_primitive("System.Single"), Some("float"));
    assert_eq!(convert_base_to_primitive("System.Decimal"), None);
    assert!(is_special_unity_type("UnityEngine.Color32"));
    assert!(!is_special_unity_type("UnityEngine.Color64"));
    assert!(is_assembly_blacklisted("mscorlib.dll"));
    assert!(is_assembly_blacklisted("System"));
    assert!(!is_assembly_blacklisted("System.dll.dll"));
    assert!(!is_assembly_blacklisted("Assembly-CSharp"));
}

#[test]
fn node_and_int_leaf() {
    let n = node("a", "T", true, vec![int_f("b")]);
    assert_eq!(flat(&n), vec![row(0, "T", "a", true), row(1, "int", "b", false)]);
}
