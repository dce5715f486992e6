//! The hardcoded template subtrees for strings, vectors, PPtrs, managed
//! references and Unity's built-in serialized value types.
//!
//! Each node carries only what the finished type tree needs: a type name, a
//! field name, the children, and whether the node is 4-byte aligned.
use vstd::prelude::*;
use crate::text::{owned, joined, text_eq, has_suffix, indexed, indexed_name};
use crate::version::UnityVersion;
use crate::field::{TemplateField, Field, models, fnode, fleaf};

verus! {

broadcast use crate::field::group_models;

/// A node with the given name, type, alignment and children.
pub fn node(name: &str, ty: &str, aligned: bool, children: Vec<TemplateField>) -> (r: TemplateField)
    ensures
        r@ == fnode(name@, ty@, aligned, models(children@)),
{
    TemplateField { name: owned(name), ty: owned(ty), aligned, children }
}

/// A node without children.
pub fn leaf(name: &str, ty: &str, aligned: bool) -> (r: TemplateField)
    ensures
        r@ == fleaf(name@, ty@, aligned),
{
    let v: Vec<TemplateField> = Vec::new();
    proof {
        assert(models(v@) =~= Seq::<Field>::empty());
    }
    node(name, ty, aligned, v)
}

// --- Basic scalars ---

pub fn sbyte(name: &str, align: bool) -> (r: TemplateField)
    ensures
        r@ == fleaf(name@, "SInt8"@, align),
{
    leaf(name, "SInt8", align)
}

pub fn byte_f(name: &str, align: bool) -> (r: TemplateField)
    ensures
        r@ == fleaf(name@, "UInt8"@, align),
{
    leaf(name, "UInt8", align)
}

pub fn cchar(name: &str) -> (r: TemplateField)
    ensures
        r@ == fleaf(name@, "char"@, false),
{
    leaf(name, "char", false)
}

pub fn ushort(name: &str) -> (r: TemplateField)
    ensures
        r@ == fleaf(name@, "UInt16"@, false),
{
    leaf(name, "UInt16", false)
}

pub fn int_f(name: &str) -> (r: TemplateField)
    ensures
        r@ == fleaf(name@, "int"@, false),
{
    leaf(name, "int", false)
}

pub fn uint_f(name: &str) -> (r: TemplateField)
    ensures
        r@ == fleaf(name@, "unsigned int"@, false),
{
    leaf(name, "unsigned int", false)
}

pub fn long_f(name: &str) -> (r: TemplateField)
    ensures
        r@ == fleaf(name@, "SInt64"@, false),
{
    leaf(name, "SInt64", false)
}

pub fn float_f(name: &str) -> (r: TemplateField)
    ensures
        r@ == fleaf(name@, "float"@, false),
{
    leaf(name, "float", false)
}

pub fn bool_f(name: &str, align: bool) -> (r: TemplateField)
    ensures
        r@ == fleaf(name@, "bool"@, align),
{
    leaf(name, "bool", align)
}

// --- Value-type classification for alignment of dynamic fields ---

/// Type names whose values are 1 or 2 bytes wide, after which the
/// serialized stream is re-aligned to 4 bytes.
pub open spec fn aligns_by_name(ty: Seq<char>) -> bool {
    ||| ty == "bool"@
    ||| ty == "SInt8"@
    ||| ty == "char"@
    ||| ty == "UInt8"@
    ||| ty == "unsigned char"@
    ||| ty == "SInt16"@
    ||| ty == "short"@
    ||| ty == "UInt16"@
    ||| ty == "unsigned short"@
}

/// Whether a node with this type name is 4-byte aligned.
pub fn type_aligns_by_name(ty: &str) -> (r: bool)
    ensures
        r == aligns_by_name(ty@),
{
    text_eq(ty, "bool") || text_eq(ty, "SInt8") || text_eq(ty, "char") || text_eq(ty, "UInt8")
        || text_eq(ty, "unsigned char") || text_eq(ty, "SInt16") || text_eq(ty, "short")
        || text_eq(ty, "UInt16") || text_eq(ty, "unsigned short")
}

/// The type-tree name of a .NET primitive (or enum-underlying) type, given by its full name.
pub open spec fn base_to_primitive(n: Seq<char>) -> Option<Seq<char>> {
    if n == "System.Boolean"@ {
        Some("UInt8"@)
    } else if n == "System.SByte"@ {
        Some("SInt8"@)
    } else if n == "System.Byte"@ {
        Some("UInt8"@)
    } else if n == "System.Char"@ {
        Some("UInt16"@)
    } else if n == "System.Int16"@ {
        Some("SInt16"@)
    } else if n == "System.UInt16"@ {
        Some("UInt16"@)
    } else if n == "System.Int32"@ {
        Some("int"@)
    } else if n == "System.UInt32"@ {
        Some("unsigned int"@)
    } else if n == "System.Int64"@ {
        Some("SInt64"@)
    } else if n == "System.UInt64"@ {
        Some("UInt64"@)
    } else if n == "System.Double"@ {
        Some("double"@)
    } else if n == "System.Single"@ {
        Some("float"@)
    } else if n == "System.String"@ {
        Some("string"@)
    } else {
        None
    }
}

/// .NET primitive/enum-underlying full name to the type-tree name.
pub fn convert_base_to_primitive(full_name: &str) -> (r: Option<&'static str>)
    ensures
        match r {
            Some(s) => base_to_primitive(full_name@) == Some(s@),
            None => base_to_primitive(full_name@) is None,
        },
{
    let n = full_name;
    if text_eq(n, "System.Boolean") {
        Some("UInt8")
    } else if text_eq(n, "System.SByte") {
        Some("SInt8")
    } else if text_eq(n, "System.Byte") {
        Some("UInt8")
    } else if text_eq(n, "System.Char") {
        Some("UInt16")
    } else if text_eq(n, "System.Int16") {
        Some("SInt16")
    } else if text_eq(n, "System.UInt16") {
        Some("UInt16")
    } else if text_eq(n, "System.Int32") {
        Some("int")
    } else if text_eq(n, "System.UInt32") {
        Some("unsigned int")
    } else if text_eq(n, "System.Int64") {
        Some("SInt64")
    } else if text_eq(n, "System.UInt64") {
        Some("UInt64")
    } else if text_eq(n, "System.Double") {
        Some("double")
    } else if text_eq(n, "System.Single") {
        Some("float")
    } else if text_eq(n, "System.String") {
        Some("string")
    } else {
        None
    }
}

/// Unity's built-in value types that serialize specially.
pub open spec fn special_unity_type(n: Seq<char>) -> bool {
    ||| n == "UnityEngine.Color"@
    ||| n == "UnityEngine.Color32"@
    ||| n == "UnityEngine.Gradient"@
    ||| n == "UnityEngine.Vector2"@
    ||| n == "UnityEngine.Vector3"@
    ||| n == "UnityEngine.Vector4"@
    ||| n == "UnityEngine.LayerMask"@
    ||| n == "UnityEngine.Quaternion"@
    ||| n == "UnityEngine.Bounds"@
    ||| n == "UnityEngine.Rect"@
    ||| n == "UnityEngine.RectOffset"@
    ||| n == "UnityEngine.Matrix4x4"@
    ||| n == "UnityEngine.AnimationCurve"@
    ||| n == "UnityEngine.GUIStyle"@
    ||| n == "UnityEngine.Vector2Int"@
    ||| n == "UnityEngine.Vector3Int"@
    ||| n == "UnityEngine.PropertyName"@
    ||| n == "UnityEngine.BoundsInt"@
}

pub fn is_special_unity_type(full_name: &str) -> (r: bool)
    ensures
        r == special_unity_type(full_name@),
{
    let n = full_name;
    text_eq(n, "UnityEngine.Color") || text_eq(n, "UnityEngine.Color32") || text_eq(
        n,
        "UnityEngine.Gradient",
    ) || text_eq(n, "UnityEngine.Vector2") || text_eq(n, "UnityEngine.Vector3") || text_eq(
        n,
        "UnityEngine.Vector4",
    ) || text_eq(n, "UnityEngine.LayerMask") || text_eq(n, "UnityEngine.Quaternion") || text_eq(
        n,
        "UnityEngine.Bounds",
    ) || text_eq(n, "UnityEngine.Rect") || text_eq(n, "UnityEngine.RectOffset") || text_eq(
        n,
        "UnityEngine.Matrix4x4",
    ) || text_eq(n, "UnityEngine.AnimationCurve") || text_eq(n, "UnityEngine.GUIStyle")
        || text_eq(n, "UnityEngine.Vector2Int") || text_eq(n, "UnityEngine.Vector3Int") || text_eq(
        n,
        "UnityEngine.PropertyName",
    ) || text_eq(n, "UnityEngine.BoundsInt")
}

/// The assembly name without a trailing ".dll".
pub open spec fn trim_dll(a: Seq<char>) -> Seq<char> {
    if a.len() >= ".dll"@.len() && a.skip(a.len() - ".dll"@.len()) == ".dll"@ {
        a.take(a.len() - ".dll"@.len())
    } else {
        a
    }
}

/// Core library assemblies whose types are never serialized as plain classes.
pub open spec fn blacklisted(a: Seq<char>) -> bool {
    let t = trim_dll(a);
    ||| t == "mscorlib"@
    ||| t == "netstandard"@
    ||| t == "System.Core"@
    ||| t == "System"@
    ||| t == "System.Private.CoreLib"@
    ||| t == "System.Collections"@
    ||| t == "System.Collections.NonGeneric"@
}

pub fn is_assembly_blacklisted(assembly: &str) -> (r: bool)
    ensures
        r == blacklisted(assembly@),
{
    let trimmed: &str = if has_suffix(assembly, ".dll") {
        let n = assembly.unicode_len();
        proof {
            reveal_strlit(".dll");
        }
        assembly.substring_char(0, n - 4)
    } else {
        assembly
    };
    proof {
        reveal_strlit(".dll");
        assert(trimmed@ =~= trim_dll(assembly@));
    }
    let t = trimmed;
    text_eq(t, "mscorlib") || text_eq(t, "netstandard") || text_eq(t, "System.Core") || text_eq(
        t,
        "System",
    ) || text_eq(t, "System.Private.CoreLib") || text_eq(t, "System.Collections") || text_eq(
        t,
        "System.Collections.NonGeneric",
    )
}



// --- string / array / vector ---

/// The children of an `Array` node wrapping an element of type `ty` with children `children`.
pub open spec fn array_of_model(ty: Seq<char>, children: Seq<Field>) -> Seq<Field> {
    seq![
        fnode(
            "Array"@,
            "Array"@,
            false,
            seq![fleaf("size"@, "int"@, false), fnode("data"@, ty, false, children)],
        ),
    ]
}

pub open spec fn string_children_model() -> Seq<Field> {
    array_of_model("char"@, Seq::empty())
}

/// Children of a `string` node: an `Array` of `char data`.
pub fn string_children() -> (r: Vec<TemplateField>)
    ensures
        models(r@) == string_children_model(),
{
    let r = array_of(cchar("data"));
    r
}

/// `Array(field)`: an `Array` node wrapping `size` and a `data` element carrying
/// `field`'s type and children. The element's own alignment is dropped.
pub fn array_of(field: TemplateField) -> (r: Vec<TemplateField>)
    ensures
        models(r@) == array_of_model(field@.ty, field@.children),
{
    let ghost f = field@;
    let data = node("data", field.ty.as_str(), false, field.children);
    let inner = vec![int_f("size"), data];
    assert(models(inner@) =~= seq![fleaf("size"@, "int"@, false), fnode("data"@, f.ty, false, f.children)]);
    let r = vec![node("Array", "Array", false, inner)];
    assert(models(r@) =~= array_of_model(f.ty, f.children));
    r
}

pub open spec fn vector_model(f: Field) -> Field {
    fnode(f.name, "vector"@, false, array_of_model(f.ty, f.children))
}

/// `Vector(field)`: a `vector` node whose element is `field`.
pub fn vector(field: TemplateField) -> (r: TemplateField)
    ensures
        r@ == vector_model(field@),
{
    let name = owned(field.name.as_str());
    node(name.as_str(), "vector", false, array_of(field))
}

pub open spec fn vector_with_type_model(f: Field) -> Field {
    fnode(f.name, f.ty, false, array_of_model(f.ty, f.children))
}

/// `VectorWithType(field)`: like [`vector`] but the node keeps `field`'s type.
pub fn vector_with_type(field: TemplateField) -> (r: TemplateField)
    ensures
        r@ == vector_with_type_model(field@),
{
    let name = owned(field.name.as_str());
    let ty = owned(field.ty.as_str());
    node(name.as_str(), ty.as_str(), false, array_of(field))
}

// --- PPtr / managed references ---

/// Whether references carry a 64-bit `rid` (2021.2 and later).
pub open spec fn uses_rid(v: UnityVersion) -> bool {
    v.major > 2021 || (v.major == 2021 && v.minor >= 2)
}

pub open spec fn pptr_children_model(v: UnityVersion) -> Seq<Field> {
    if v.major >= 5 {
        seq![fleaf("m_FileID"@, "int"@, false), fleaf("m_PathID"@, "SInt64"@, false)]
    } else {
        seq![fleaf("m_FileID"@, "int"@, false), fleaf("m_PathID"@, "int"@, false)]
    }
}

pub fn pptr_children(version: &UnityVersion) -> (r: Vec<TemplateField>)
    ensures
        models(r@) == pptr_children_model(*version),
{
    let r = if version.major >= 5 {
        vec![int_f("m_FileID"), long_f("m_PathID")]
    } else {
        vec![int_f("m_FileID"), int_f("m_PathID")]
    };
    assert(models(r@) =~= pptr_children_model(*version));
    r
}

pub open spec fn managed_reference_children_model(v: UnityVersion) -> Seq<Field> {
    if uses_rid(v) {
        seq![fleaf("rid"@, "SInt64"@, false)]
    } else {
        seq![fleaf("id"@, "int"@, false)]
    }
}

pub fn managed_reference_children(version: &UnityVersion) -> (r: Vec<TemplateField>)
    ensures
        models(r@) == managed_reference_children_model(*version),
{
    let r = if version.major > 2021 || (version.major == 2021 && version.minor >= 2) {
        vec![long_f("rid")]
    } else {
        vec![int_f("id")]
    };
    assert(models(r@) =~= managed_reference_children_model(*version));
    r
}

pub open spec fn string_field_model(name: Seq<char>) -> Field {
    fnode(name, "string"@, false, string_children_model())
}

pub fn string_field(name: &str) -> (r: TemplateField)
    ensures
        r@ == string_field_model(name@),
{
    node(name, "string", false, string_children())
}

pub open spec fn referenced_managed_type_model(name: Seq<char>) -> Field {
    fnode(
        name,
        "ReferencedManagedType"@,
        false,
        seq![string_field_model("class"@), string_field_model("ns"@), string_field_model("asm"@)],
    )
}

pub fn referenced_managed_type(name: &str) -> (r: TemplateField)
    ensures
        r@ == referenced_managed_type_model(name@),
{
    let c = vec![string_field("class"), string_field("ns"), string_field("asm")];
    assert(models(c@) =~= seq![string_field_model("class"@), string_field_model("ns"@), string_field_model("asm"@)]);
    node(name, "ReferencedManagedType", false, c)
}

pub open spec fn referenced_object_model(name: Seq<char>, v: UnityVersion) -> Field {
    let data = fleaf("data"@, "ReferencedObjectData"@, false);
    let ty = referenced_managed_type_model("type"@);
    fnode(
        name,
        "ReferencedObject"@,
        false,
        if uses_rid(v) {
            seq![fleaf("rid"@, "SInt64"@, false), ty, data]
        } else {
            seq![ty, data]
        },
    )
}

pub fn referenced_object(name: &str, version: &UnityVersion) -> (r: TemplateField)
    ensures
        r@ == referenced_object_model(name@, *version),
{
    let ghost data = fleaf("data"@, "ReferencedObjectData"@, false);
    let ghost ty = referenced_managed_type_model("type"@);
    let children = if version.major > 2021 || (version.major == 2021 && version.minor >= 2) {
        let c = vec![long_f("rid"), referenced_managed_type("type"), leaf("data", "ReferencedObjectData", false)];
        assert(models(c@) =~= seq![fleaf("rid"@, "SInt64"@, false), ty, data]);
        c
    } else {
        let c = vec![referenced_managed_type("type"), leaf("data", "ReferencedObjectData", false)];
        assert(models(c@) =~= seq![ty, data]);
        c
    };
    node(name, "ReferencedObject", false, children)
}

pub open spec fn managed_references_registry_model(name: Seq<char>, v: UnityVersion) -> Field {
    fnode(
        name,
        "ManagedReferencesRegistry"@,
        false,
        if uses_rid(v) {
            seq![fleaf("version"@, "int"@, false), vector_model(referenced_object_model("RefIds"@, v))]
        } else {
            seq![fleaf("version"@, "int"@, false), referenced_object_model("00000000"@, v)]
        },
    )
}

/// The `references` registry appended once when a type uses `[SerializeReference]`.
pub fn managed_references_registry(name: &str, version: &UnityVersion) -> (r: TemplateField)
    ensures
        r@ == managed_references_registry_model(name@, *version),
{
    let children = if version.major > 2021 || (version.major == 2021 && version.minor >= 2) {
        let c = vec![int_f("version"), vector(referenced_object("RefIds", version))];
        assert(models(c@) =~= seq![fleaf("version"@, "int"@, false), vector_model(referenced_object_model("RefIds"@, *version))]);
        c
    } else {
        let c = vec![int_f("version"), referenced_object("00000000", version)];
        assert(models(c@) =~= seq![fleaf("version"@, "int"@, false), referenced_object_model("00000000"@, *version)]);
        c
    };
    node(name, "ManagedReferencesRegistry", false, children)
}

// --- Special Unity value types ---

pub open spec fn vector3f_model(name: Seq<char>) -> Field {
    fnode(name, "Vector3f"@, false, seq![fleaf("x"@, "float"@, false), fleaf("y"@, "float"@, false), fleaf("z"@, "float"@, false)])
}

pub fn vector3f(name: &str) -> (r: TemplateField)
    ensures
        r@ == vector3f_model(name@),
{
    let c = vec![float_f("x"), float_f("y"), float_f("z")];
    assert(models(c@) =~= vector3f_model(name@).children);
    node(name, "Vector3f", false, c)
}

pub open spec fn vector3int_model(name: Seq<char>) -> Field {
    fnode(name, "int3_storage"@, false, seq![fleaf("x"@, "int"@, false), fleaf("y"@, "int"@, false), fleaf("z"@, "int"@, false)])
}

pub fn vector3int(name: &str) -> (r: TemplateField)
    ensures
        r@ == vector3int_model(name@),
{
    let c = vec![int_f("x"), int_f("y"), int_f("z")];
    assert(models(c@) =~= vector3int_model(name@).children);
    node(name, "int3_storage", false, c)
}

pub open spec fn rgbaf_model(name: Seq<char>) -> Field {
    fnode(
        name,
        "ColorRGBA"@,
        false,
        seq![fleaf("r"@, "float"@, false), fleaf("g"@, "float"@, false), fleaf("b"@, "float"@, false), fleaf("a"@, "float"@, false)],
    )
}

pub fn rgbaf(name: &str) -> (r: TemplateField)
    ensures
        r@ == rgbaf_model(name@),
{
    let c = vec![float_f("r"), float_f("g"), float_f("b"), float_f("a")];
    assert(models(c@) =~= rgbaf_model(name@).children);
    node(name, "ColorRGBA", false, c)
}

pub open spec fn vector2f_model(name: Seq<char>) -> Field {
    fnode(name, "Vector2f"@, false, seq![fleaf("x"@, "float"@, false), fleaf("y"@, "float"@, false)])
}

pub fn vector2f(name: &str) -> (r: TemplateField)
    ensures
        r@ == vector2f_model(name@),
{
    let c = vec![float_f("x"), float_f("y")];
    assert(models(c@) =~= vector2f_model(name@).children);
    node(name, "Vector2f", false, c)
}

pub open spec fn rect_offset_children_model() -> Seq<Field> {
    seq![fleaf("m_Left"@, "int"@, false), fleaf("m_Right"@, "int"@, false), fleaf("m_Top"@, "int"@, false), fleaf("m_Bottom"@, "int"@, false)]
}

fn rect_offset_children() -> (r: Vec<TemplateField>)
    ensures
        models(r@) == rect_offset_children_model(),
{
    let c = vec![int_f("m_Left"), int_f("m_Right"), int_f("m_Top"), int_f("m_Bottom")];
    assert(models(c@) =~= rect_offset_children_model());
    c
}

pub open spec fn rect_offset_model(name: Seq<char>) -> Field {
    fnode(name, "RectOffset"@, false, rect_offset_children_model())
}

pub fn rect_offset(name: &str) -> (r: TemplateField)
    ensures
        r@ == rect_offset_model(name@),
{
    node(name, "RectOffset", false, rect_offset_children())
}

pub open spec fn pptr_field_model(name: Seq<char>, class_name: Seq<char>, v: UnityVersion) -> Field {
    fnode(name, "PPtr<"@ + class_name + ">"@, false, pptr_children_model(v))
}

pub fn pptr_field(name: &str, class_name: &str, version: &UnityVersion) -> (r: TemplateField)
    ensures
        r@ == pptr_field_model(name@, class_name@, *version),
{
    let mut ty = joined("PPtr<", class_name);
    ty.append(">");
    node(name, ty.as_str(), false, pptr_children(version))
}

pub open spec fn gui_style_state_model(name: Seq<char>, v: UnityVersion) -> Field {
    fnode(
        name,
        "GUIStyleState"@,
        false,
        seq![pptr_field_model("m_Background"@, "Texture2D"@, v), rgbaf_model("m_TextColor"@)],
    )
}

/// `GUIStyleState`: a background PPtr and a text color.
pub fn gui_style_state(name: &str, version: &UnityVersion) -> (r: TemplateField)
    ensures
        r@ == gui_style_state_model(name@, *version),
{
    let c = vec![pptr_field("m_Background", "Texture2D", version), rgbaf("m_TextColor")];
    assert(models(c@) =~= gui_style_state_model(name@, *version).children);
    node(name, "GUIStyleState", false, c)
}

pub open spec fn int_leaf(name: Seq<char>) -> Field {
    fleaf(name, "int"@, false)
}

/// `GUIStyle`'s fields. The field order and a few alignment flags differ
/// between Unity 3 and 4+.
pub open spec fn gui_style_children_model(v: UnityVersion) -> Seq<Field> {
    let v4 = v.major >= 4;
    seq![
        string_field_model("m_Name"@),
        gui_style_state_model("m_Normal"@, v),
        gui_style_state_model("m_Hover"@, v),
        gui_style_state_model("m_Active"@, v),
        gui_style_state_model("m_Focused"@, v),
        gui_style_state_model("m_OnNormal"@, v),
        gui_style_state_model("m_OnHover"@, v),
        gui_style_state_model("m_OnActive"@, v),
        gui_style_state_model("m_OnFocused"@, v),
        rect_offset_model("m_Border"@),
    ] + (if v4 {
        seq![rect_offset_model("m_Margin"@), rect_offset_model("m_Padding"@)]
    } else {
        seq![rect_offset_model("m_Padding"@), rect_offset_model("m_Margin"@)]
    }) + seq![rect_offset_model("m_Overflow"@), pptr_field_model("m_Font"@, "Font"@, v)] + (if v4 {
        seq![
            int_leaf("m_FontSize"@),
            int_leaf("m_FontStyle"@),
            int_leaf("m_Alignment"@),
            fleaf("m_WordWrap"@, "bool"@, false),
            fleaf("m_RichText"@, "bool"@, true),
        ]
    } else {
        seq![int_leaf("m_ImagePosition"@), int_leaf("m_Alignment"@), fleaf("m_WordWrap"@, "bool"@, true)]
    }) + seq![int_leaf("m_TextClipping"@)] + (if v4 {
        seq![int_leaf("m_ImagePosition"@)]
    } else {
        Seq::empty()
    }) + seq![vector2f_model("m_ContentOffset"@)] + (if !v4 {
        seq![vector2f_model("m_ClipOffset"@)]
    } else {
        Seq::empty()
    }) + seq![fleaf("m_FixedWidth"@, "float"@, false), fleaf("m_FixedHeight"@, "float"@, false)] + (
    if v4 {
        seq![fleaf("m_StretchWidth"@, "bool"@, false)]
    } else {
        seq![int_leaf("m_FontSize"@), int_leaf("m_FontStyle"@), fleaf("m_StretchWidth"@, "bool"@, true)]
    }) + seq![fleaf("m_StretchHeight"@, "bool"@, true)]
}

/// Pushes `f` onto `out`, keeping track of the value of the whole list.
fn push_field(out: &mut Vec<TemplateField>, f: TemplateField)
    ensures
        models(final(out)@) == models(old(out)@).push(f@),
{
    let ghost before = out@;
    out.push(f);
    assert(out@.drop_last() =~= before);
}

pub fn gui_style_children(version: &UnityVersion) -> (r: Vec<TemplateField>)
    ensures
        models(r@) == gui_style_children_model(*version),
{
    let v4 = version.major >= 4;
    let mut out: Vec<TemplateField> = Vec::new();
    let ghost m0 = seq![
        string_field_model("m_Name"@),
        gui_style_state_model("m_Normal"@, *version),
        gui_style_state_model("m_Hover"@, *version),
        gui_style_state_model("m_Active"@, *version),
        gui_style_state_model("m_Focused"@, *version),
        gui_style_state_model("m_OnNormal"@, *version),
        gui_style_state_model("m_OnHover"@, *version),
        gui_style_state_model("m_OnActive"@, *version),
        gui_style_state_model("m_OnFocused"@, *version),
        rect_offset_model("m_Border"@),
    ];
    assert(models(out@) =~= Seq::<Field>::empty());
    push_field(&mut out, string_field("m_Name"));
    push_field(&mut out, gui_style_state("m_Normal", version));
    push_field(&mut out, gui_style_state("m_Hover", version));
    push_field(&mut out, gui_style_state("m_Active", version));
    push_field(&mut out, gui_style_state("m_Focused", version));
    push_field(&mut out, gui_style_state("m_OnNormal", version));
    push_field(&mut out, gui_style_state("m_OnHover", version));
    push_field(&mut out, gui_style_state("m_OnActive", version));
    push_field(&mut out, gui_style_state("m_OnFocused", version));
    push_field(&mut out, rect_offset("m_Border"));
    assert(models(out@) =~= m0);
    let ghost m1 = models(out@);
    if v4 {
        push_field(&mut out, rect_offset("m_Margin"));
        push_field(&mut out, rect_offset("m_Padding"));
    } else {
        push_field(&mut out, rect_offset("m_Padding"));
        push_field(&mut out, rect_offset("m_Margin"));
    }
    push_field(&mut out, rect_offset("m_Overflow"));
    push_field(&mut out, pptr_field("m_Font", "Font", version));
    let ghost m2 = models(out@);
    assert(m2 =~= m0 + (if v4 {
        seq![rect_offset_model("m_Margin"@), rect_offset_model("m_Padding"@)]
    } else {
        seq![rect_offset_model("m_Padding"@), rect_offset_model("m_Margin"@)]
    }) + seq![rect_offset_model("m_Overflow"@), pptr_field_model("m_Font"@, "Font"@, *version)]);
    if v4 {
        push_field(&mut out, int_f("m_FontSize"));
        push_field(&mut out, int_f("m_FontStyle"));
        push_field(&mut out, int_f("m_Alignment"));
        push_field(&mut out, bool_f("m_WordWrap", false));
        push_field(&mut out, bool_f("m_RichText", true));
    } else {
        push_field(&mut out, int_f("m_ImagePosition"));
        push_field(&mut out, int_f("m_Alignment"));
        push_field(&mut out, bool_f("m_WordWrap", true));
    }
    push_field(&mut out, int_f("m_TextClipping"));
    if v4 {
        push_field(&mut out, int_f("m_ImagePosition"));
    }
    push_field(&mut out, vector2f("m_ContentOffset"));
    let ghost m3 = models(out@);
    assert(m3 =~= m2 + (if v4 {
        seq![
            int_leaf("m_FontSize"@),
            int_leaf("m_FontStyle"@),
            int_leaf("m_Alignment"@),
            fleaf("m_WordWrap"@, "bool"@, false),
            fleaf("m_RichText"@, "bool"@, true),
        ]
    } else {
        seq![int_leaf("m_ImagePosition"@), int_leaf("m_Alignment"@), fleaf("m_WordWrap"@, "bool"@, true)]
    }) + seq![int_leaf("m_TextClipping"@)] + (if v4 {
        seq![int_leaf("m_ImagePosition"@)]
    } else {
        Seq::empty()
    }) + seq![vector2f_model("m_ContentOffset"@)]);
    if !v4 {
        push_field(&mut out, vector2f("m_ClipOffset"));
    }
    push_field(&mut out, float_f("m_FixedWidth"));
    push_field(&mut out, float_f("m_FixedHeight"));
    if v4 {
        push_field(&mut out, bool_f("m_StretchWidth", false));
    } else {
        push_field(&mut out, int_f("m_FontSize"));
        push_field(&mut out, int_f("m_FontStyle"));
        push_field(&mut out, bool_f("m_StretchWidth", true));
    }
    push_field(&mut out, bool_f("m_StretchHeight", true));
    assert(models(out@) =~= gui_style_children_model(*version));
    out
}

pub open spec fn keyframe_model(name: Seq<char>, v: UnityVersion) -> Field {
    let base = seq![
        fleaf("time"@, "float"@, false),
        fleaf("value"@, "float"@, false),
        fleaf("inSlope"@, "float"@, false),
        fleaf("outSlope"@, "float"@, false),
    ];
    fnode(
        name,
        "Keyframe"@,
        false,
        if v.major >= 2018 {
            base + seq![int_leaf("weightedMode"@), fleaf("inWeight"@, "float"@, false), fleaf("outWeight"@, "float"@, false)]
        } else {
            base
        },
    )
}

pub fn keyframe(name: &str, version: &UnityVersion) -> (r: TemplateField)
    ensures
        r@ == keyframe_model(name@, *version),
{
    let mut fields = vec![float_f("time"), float_f("value"), float_f("inSlope"), float_f("outSlope")];
    let ghost base = seq![
        fleaf("time"@, "float"@, false),
        fleaf("value"@, "float"@, false),
        fleaf("inSlope"@, "float"@, false),
        fleaf("outSlope"@, "float"@, false),
    ];
    assert(models(fields@) =~= base);
    if version.major >= 2018 {
        push_field(&mut fields, int_f("weightedMode"));
        push_field(&mut fields, float_f("inWeight"));
        push_field(&mut fields, float_f("outWeight"));
        assert(models(fields@) =~= base + seq![int_leaf("weightedMode"@), fleaf("inWeight"@, "float"@, false), fleaf("outWeight"@, "float"@, false)]);
    }
    node(name, "Keyframe", false, fields)
}

/// Whether gradients use the 5.6+ layout.
pub open spec fn modern_gradient(v: UnityVersion) -> bool {
    v.major > 5 || (v.major == 5 && v.minor >= 6)
}

/// Whether gradients carry a color space (2022.2 and later).
pub open spec fn gradient_has_color_space(v: UnityVersion) -> bool {
    v.major > 2022 || (v.major == 2022 && v.minor >= 2)
}

pub open spec fn gradient_children_model(v: UnityVersion) -> Seq<Field> {
    if modern_gradient(v) {
        Seq::new(8, |i: int| rgbaf_model(indexed_name("key"@, i)))
            + Seq::new(8, |i: int| fleaf(indexed_name("ctime"@, i), "UInt16"@, false))
            + Seq::new(8, |i: int| fleaf(indexed_name("atime"@, i), "UInt16"@, false))
            + (if gradient_has_color_space(v) {
                seq![fleaf("m_Mode"@, "UInt8"@, false), fleaf("m_ColorSpace"@, "SInt8"@, false)]
            } else {
                seq![int_leaf("m_Mode"@)]
            })
            + seq![fleaf("m_NumColorKeys"@, "UInt8"@, false), fleaf("m_NumAlphaKeys"@, "UInt8"@, true)]
    } else {
        Seq::new(
            8,
            |i: int| fnode(indexed_name("key"@, i), "ColorRGBA"@, false, seq![fleaf("rgba"@, "unsigned int"@, false)]),
        )
    }
}

pub fn gradient_children(version: &UnityVersion) -> (r: Vec<TemplateField>)
    ensures
        models(r@) == gradient_children_model(*version),
{
    let mut fields: Vec<TemplateField> = Vec::new();
    assert(models(fields@) =~= Seq::<Field>::empty());
    if version.major > 5 || (version.major == 5 && version.minor >= 6) {
        let ghost keys = Seq::new(8, |i: int| rgbaf_model(indexed_name("key"@, i)));
        let ghost ctimes = Seq::new(8, |i: int| fleaf(indexed_name("ctime"@, i), "UInt16"@, false));
        let ghost atimes = Seq::new(8, |i: int| fleaf(indexed_name("atime"@, i), "UInt16"@, false));
        for i in 0..8usize
            invariant
                keys == Seq::new(8, |k: int| rgbaf_model(indexed_name("key"@, k))),
                models(fields@) =~= keys.take(i as int),
        {
            let name = indexed("key", i);
            push_field(&mut fields, rgbaf(name.as_str()));
            assert(keys.take(i + 1) =~= keys.take(i as int).push(keys[i as int]));
        }
        for i in 0..8usize
            invariant
                ctimes == Seq::new(8, |k: int| fleaf(indexed_name("ctime"@, k), "UInt16"@, false)),
                models(fields@) =~= keys + ctimes.take(i as int),
        {
            let name = indexed("ctime", i);
            push_field(&mut fields, ushort(name.as_str()));
            assert(ctimes.take(i + 1) =~= ctimes.take(i as int).push(ctimes[i as int]));
        }
        for i in 0..8usize
            invariant
                atimes == Seq::new(8, |k: int| fleaf(indexed_name("atime"@, k), "UInt16"@, false)),
                models(fields@) =~= keys + ctimes + atimes.take(i as int),
        {
            let name = indexed("atime", i);
            push_field(&mut fields, ushort(name.as_str()));
            assert(atimes.take(i + 1) =~= atimes.take(i as int).push(atimes[i as int]));
        }
        let ghost m = models(fields@);
        if version.major > 2022 || (version.major == 2022 && version.minor >= 2) {
            push_field(&mut fields, byte_f("m_Mode", false));
            push_field(&mut fields, sbyte("m_ColorSpace", false));
            assert(models(fields@) =~= m + seq![fleaf("m_Mode"@, "UInt8"@, false), fleaf("m_ColorSpace"@, "SInt8"@, false)]);
        } else {
            push_field(&mut fields, int_f("m_Mode"));
            assert(models(fields@) =~= m + seq![int_leaf("m_Mode"@)]);
        }
        let ghost m2 = models(fields@);
        push_field(&mut fields, byte_f("m_NumColorKeys", false));
        push_field(&mut fields, byte_f("m_NumAlphaKeys", true));
        assert(models(fields@) =~= m2 + seq![fleaf("m_NumColorKeys"@, "UInt8"@, false), fleaf("m_NumAlphaKeys"@, "UInt8"@, true)]);
        assert(models(fields@) =~= gradient_children_model(*version));
    } else {
        let ghost keys = Seq::new(
            8,
            |i: int| fnode(indexed_name("key"@, i), "ColorRGBA"@, false, seq![fleaf("rgba"@, "unsigned int"@, false)]),
        );
        for i in 0..8usize
            invariant
                keys == Seq::new(
                    8,
                    |k: int| fnode(indexed_name("key"@, k), "ColorRGBA"@, false, seq![fleaf("rgba"@, "unsigned int"@, false)]),
                ),
                models(fields@) =~= keys.take(i as int),
        {
            let name = indexed("key", i);
            let c = vec![uint_f("rgba")];
            assert(models(c@) =~= seq![fleaf("rgba"@, "unsigned int"@, false)]);
            push_field(&mut fields, node(name.as_str(), "ColorRGBA", false, c));
            assert(keys.take(i + 1) =~= keys.take(i as int).push(keys[i as int]));
        }
        assert(keys.take(8) =~= keys);
    }
    fields
}

pub open spec fn animation_curve_children_model(v: UnityVersion) -> Seq<Field> {
    let base = seq![vector_model(keyframe_model("m_Curve"@, v)), int_leaf("m_PreInfinity"@), int_leaf("m_PostInfinity"@)];
    if v.major > 5 || (v.major == 5 && v.minor >= 3) {
        base.push(int_leaf("m_RotationOrder"@))
    } else {
        base
    }
}

pub fn animation_curve_children(version: &UnityVersion) -> (r: Vec<TemplateField>)
    ensures
        models(r@) == animation_curve_children_model(*version),
{
    let mut fields = vec![vector(keyframe("m_Curve", version)), int_f("m_PreInfinity"), int_f("m_PostInfinity")];
    assert(models(fields@) =~= seq![vector_model(keyframe_model("m_Curve"@, *version)), int_leaf("m_PreInfinity"@), int_leaf("m_PostInfinity"@)]);
    if version.major > 5 || (version.major == 5 && version.minor >= 3) {
        push_field(&mut fields, int_f("m_RotationOrder"));
    }
    fields
}

/// Children of a built-in Unity value type, identified by its short type name.
/// Types not listed here (Vector2/3/4, Quaternion, Color, Matrix4x4) read
/// their own serialized fields instead.
pub open spec fn special_unity_children_model(n: Seq<char>, v: UnityVersion) -> Option<Seq<Field>> {
    if n == "Gradient"@ {
        Some(gradient_children_model(v))
    } else if n == "AnimationCurve"@ {
        Some(animation_curve_children_model(v))
    } else if n == "LayerMask"@ {
        Some(seq![fleaf("m_Bits"@, "unsigned int"@, false)])
    } else if n == "Bounds"@ {
        Some(seq![vector3f_model("m_Center"@), vector3f_model("m_Extent"@)])
    } else if n == "BoundsInt"@ {
        Some(seq![vector3int_model("m_Position"@), vector3int_model("m_Size"@)])
    } else if n == "Rect"@ {
        Some(seq![fleaf("x"@, "float"@, false), fleaf("y"@, "float"@, false), fleaf("width"@, "float"@, false), fleaf("height"@, "float"@, false)])
    } else if n == "RectOffset"@ {
        Some(rect_offset_children_model())
    } else if n == "Color32"@ {
        Some(seq![fleaf("rgba"@, "unsigned int"@, false)])
    } else if n == "Vector2Int"@ {
        Some(seq![int_leaf("x"@), int_leaf("y"@)])
    } else if n == "Vector3Int"@ {
        Some(seq![int_leaf("x"@), int_leaf("y"@), int_leaf("z"@)])
    } else if n == "PropertyName"@ {
        Some(seq![string_field_model("id"@)])
    } else if n == "GUIStyle"@ {
        Some(gui_style_children_model(v))
    } else {
        None
    }
}

pub fn special_unity_children(class_name: &str, version: &UnityVersion) -> (r: Option<Vec<TemplateField>>)
    ensures
        crate::field::opt_models(r) == special_unity_children_model(class_name@, *version),
{
    let n = class_name;
    if text_eq(n, "Gradient") {
        Some(gradient_children(version))
    } else if text_eq(n, "AnimationCurve") {
        Some(animation_curve_children(version))
    } else if text_eq(n, "LayerMask") {
        let c = vec![uint_f("m_Bits")];
        assert(models(c@) =~= seq![fleaf("m_Bits"@, "unsigned int"@, false)]);
        Some(c)
    } else if text_eq(n, "Bounds") {
        let c = vec![vector3f("m_Center"), vector3f("m_Extent")];
        assert(models(c@) =~= seq![vector3f_model("m_Center"@), vector3f_model("m_Extent"@)]);
        Some(c)
    } else if text_eq(n, "BoundsInt") {
        let c = vec![vector3int("m_Position"), vector3int("m_Size")];
        assert(models(c@) =~= seq![vector3int_model("m_Position"@), vector3int_model("m_Size"@)]);
        Some(c)
    } else if text_eq(n, "Rect") {
        let c = vec![float_f("x"), float_f("y"), float_f("width"), float_f("height")];
        assert(models(c@) =~= seq![fleaf("x"@, "float"@, false), fleaf("y"@, "float"@, false), fleaf("width"@, "float"@, false), fleaf("height"@, "float"@, false)]);
        Some(c)
    } else if text_eq(n, "RectOffset") {
        Some(rect_offset_children())
    } else if text_eq(n, "Color32") {
        let c = vec![uint_f("rgba")];
        assert(models(c@) =~= seq![fleaf("rgba"@, "unsigned int"@, false)]);
        Some(c)
    } else if text_eq(n, "Vector2Int") {
        let c = vec![int_f("x"), int_f("y")];
        assert(models(c@) =~= seq![int_leaf("x"@), int_leaf("y"@)]);
        Some(c)
    } else if text_eq(n, "Vector3Int") {
        let c = vec![int_f("x"), int_f("y"), int_f("z")];
        assert(models(c@) =~= seq![int_leaf("x"@), int_leaf("y"@), int_leaf("z"@)]);
        Some(c)
    } else if text_eq(n, "PropertyName") {
        let c = vec![string_field("id")];
        assert(models(c@) =~= seq![string_field_model("id"@)]);
        Some(c)
    } else if text_eq(n, "GUIStyle") {
        Some(gui_style_children(version))
    } else {
        None
    }
}


/// `VectorWithType(field)` is `Vector(field)` except that the node keeps the
/// field's type instead of `vector`.
pub proof fn law_vector_with_type_keeps_type(f: Field)
    ensures
        vector_with_type_model(f) == (Field { ty: f.ty, ..vector_model(f) }),
        vector_model(f).name == f.name,
{
}

/// An `Array` wrapper is never aligned by the template, and its element drops
/// the alignment of the field it wraps but keeps its type and children.
pub proof fn law_array_drops_element_alignment(f: Field)
    ensures
        array_of_model(f.ty, f.children).len() == 1,
        !array_of_model(f.ty, f.children)[0].aligned,
        !array_of_model(f.ty, f.children)[0].children[1].aligned,
        array_of_model(f.ty, f.children)[0].children[1].ty == f.ty,
        array_of_model(f.ty, f.children)[0].children[1].children == f.children,
{
}
/// A `Rect` is laid out as the floats `x`, `y`, `width`, `height`, in that
/// order, in every Unity version.
pub proof fn law_rect_layout(v: UnityVersion)
    ensures
        special_unity_children_model("Rect"@, v) matches Some(cs) && cs.len() == 4
            && cs[0].name == "x"@ && cs[1].name == "y"@ && cs[2].name == "width"@ && cs[3].name == "height"@
            && forall|i: int| 0 <= i < 4 ==> (#[trigger] cs[i]).ty == "float"@ && cs[i].children.len() == 0,
{
    reveal_strlit("Rect");
    reveal_strlit("Gradient");
    reveal_strlit("AnimationCurve");
    reveal_strlit("LayerMask");
    reveal_strlit("Bounds");
    reveal_strlit("BoundsInt");
    assert("Rect"@.len() == 4);
    assert("Gradient"@.len() == 8);
    assert("AnimationCurve"@.len() == 14);
    assert("LayerMask"@.len() == 9);
    assert("Bounds"@.len() == 6);
    assert("BoundsInt"@.len() == 9);
}

/// A `ReferencedManagedType` node holds the strings `class`, `ns` and
/// `asm`, in that order.
pub proof fn law_referenced_managed_type_layout(name: Seq<char>)
    ensures
        referenced_managed_type_model(name).ty == "ReferencedManagedType"@,
        referenced_managed_type_model(name).children.len() == 3,
        referenced_managed_type_model(name).children[0].name == "class"@,
        referenced_managed_type_model(name).children[1].name == "ns"@,
        referenced_managed_type_model(name).children[2].name == "asm"@,
        forall|i: int| 0 <= i < 3 ==> (#[trigger] referenced_managed_type_model(name).children[i]).ty == "string"@,
{
}

} // verus!
