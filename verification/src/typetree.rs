//! Builds the finished type tree from a template tree: byte sizes, alignment
//! flags and array flags.
use vstd::prelude::*;
use crate::field::{TemplateField, Field, models, lemma_models};
use crate::text::{owned, text_eq, has_prefix};
use crate::template::pptr_field_model;
use crate::version::UnityVersion;
use rabex::typetree::TypeTreeNode as R;

verus! {

/// Align flag set on a node whose value is 4-byte aligned after writing.
pub const ALIGN_FLAG: i32 = 0x4000;

/// The node classes of a Unity type tree, as rabex's `TypetreeNodeKind` names them.
#[derive(Debug, Clone, Copy, PartialEq, Eq, Structural)]
pub enum NodeKind {
    Bool,
    U8,
    U16,
    U32,
    U64,
    I8,
    I16,
    I32,
    I64,
    Float,
    Double,
    Char,
    Str,
    Mapping,
    Untyped,
    Empty,
    ArrayWrapper,
    Array,
    Struct,
    TodoReferenced,
    TodoType,
}

/// The node class at position `c` of rabex's `TypetreeNodeKind`, whose
/// variants [`NodeKind`] lists in the same order.
pub open spec fn kind_at(c: u8) -> NodeKind {
    match c {
        0 => NodeKind::Bool,
        1 => NodeKind::U8,
        2 => NodeKind::U16,
        3 => NodeKind::U32,
        4 => NodeKind::U64,
        5 => NodeKind::I8,
        6 => NodeKind::I16,
        7 => NodeKind::I32,
        8 => NodeKind::I64,
        9 => NodeKind::Float,
        10 => NodeKind::Double,
        11 => NodeKind::Char,
        12 => NodeKind::Str,
        13 => NodeKind::Mapping,
        14 => NodeKind::Untyped,
        15 => NodeKind::Empty,
        16 => NodeKind::ArrayWrapper,
        17 => NodeKind::Array,
        18 => NodeKind::Struct,
        19 => NodeKind::TodoReferenced,
        _ => NodeKind::TodoType,
    }
}

/// The node class that rabex's `TypeTreeNode::classify` gives a node of type
/// `ty` whose children have the types `child_types`: by the type name for the
/// names it knows, else by the children.
pub open spec fn rabex_kind(ty: Seq<char>, child_types: Seq<Seq<char>>) -> NodeKind {
    if ty == "bool"@ {
        NodeKind::Bool
    } else if ty == "UInt8"@ {
        NodeKind::U8
    } else if ty == "UInt16"@ || ty == "unsigned short"@ {
        NodeKind::U16
    } else if ty == "UInt32"@ || ty == "unsigned int"@ || ty == "Type*"@ {
        NodeKind::U32
    } else if ty == "UInt64"@ || ty == "unsigned long long"@ || ty == "FileSize"@ {
        NodeKind::U64
    } else if ty == "SInt8"@ {
        NodeKind::I8
    } else if ty == "SInt16"@ || ty == "short"@ {
        NodeKind::I16
    } else if ty == "SInt32"@ || ty == "int"@ {
        NodeKind::I32
    } else if ty == "SInt64"@ || ty == "long long"@ {
        NodeKind::I64
    } else if ty == "float"@ {
        NodeKind::Float
    } else if ty == "double"@ {
        NodeKind::Double
    } else if ty == "char"@ {
        NodeKind::Char
    } else if ty == "string"@ {
        NodeKind::Str
    } else if ty == "map"@ {
        NodeKind::Mapping
    } else if ty == "Type"@ {
        NodeKind::TodoType
    } else if ty == "Array"@ {
        NodeKind::Array
    } else if ty == "TypelessData"@ {
        NodeKind::Untyped
    } else if ty == "ReferencedObject"@ || ty == "ReferencedObjectData"@ || ty == "ManagedReferencesRegistry"@ {
        NodeKind::TodoReferenced
    } else if child_types.len() == 0 {
        NodeKind::Empty
    } else if child_types.len() == 1 && child_types[0] == "Array"@ {
        NodeKind::ArrayWrapper
    } else {
        NodeKind::Struct
    }
}

/// Calls rabex's `TypeTreeNode::classify` on a node of type `ty` whose
/// children have the types `child_types` (each child otherwise default), and
/// gives the position of the resulting variant in `TypetreeNodeKind`, which
/// [`kind_at`] maps back: the class is the one [`rabex_kind`] gives.
#[verifier::external_body]
fn classify_code(ty: &str, child_types: &Vec<String>) -> (c: u8)
    ensures
        kind_at(c) == rabex_kind(ty@, child_types@.map_values(|s: String| s@)),
{
    let kids = child_types.iter().map(|t| R { m_Type: t.clone(), ..Default::default() }).collect();
    (R { m_Type: ty.to_string(), children: kids, ..Default::default() }).classify() as u8
}

fn kind_from_code(c: u8) -> (k: NodeKind)
    ensures
        k == kind_at(c),
{
    match c {
        0 => NodeKind::Bool,
        1 => NodeKind::U8,
        2 => NodeKind::U16,
        3 => NodeKind::U32,
        4 => NodeKind::U64,
        5 => NodeKind::I8,
        6 => NodeKind::I16,
        7 => NodeKind::I32,
        8 => NodeKind::I64,
        9 => NodeKind::Float,
        10 => NodeKind::Double,
        11 => NodeKind::Char,
        12 => NodeKind::Str,
        13 => NodeKind::Mapping,
        14 => NodeKind::Untyped,
        15 => NodeKind::Empty,
        16 => NodeKind::ArrayWrapper,
        17 => NodeKind::Array,
        18 => NodeKind::Struct,
        19 => NodeKind::TodoReferenced,
        _ => NodeKind::TodoType,
    }
}

/// The class rabex gives a node of type `ty` whose children have the types `child_types`.
pub fn classify(ty: &str, child_types: &Vec<String>) -> (k: NodeKind)
    ensures
        k == rabex_kind(ty@, child_types@.map_values(|s: String| s@)),
{
    kind_from_code(classify_code(ty, child_types))
}

/// One node of a finished Unity type tree.
#[derive(Debug)]
pub struct TypeTreeNode {
    pub ty: String,
    pub name: String,
    pub byte_size: i32,
    pub type_flags: i32,
    pub meta_flag: i32,
    pub children: Vec<TypeTreeNode>,
}

/// The mathematical value of a [`TypeTreeNode`].
pub struct NodeModel {
    pub ty: Seq<char>,
    pub name: Seq<char>,
    pub byte_size: int,
    pub type_flags: int,
    pub meta_flag: int,
    pub children: Seq<NodeModel>,
}

impl TypeTreeNode {
    pub open spec fn model(self) -> NodeModel
        decreases self,
    {
        NodeModel {
            ty: self.ty@,
            name: self.name@,
            byte_size: self.byte_size as int,
            type_flags: self.type_flags as int,
            meta_flag: self.meta_flag as int,
            children: node_models(self.children@),
        }
    }
}

pub open spec fn node_models(s: Seq<TypeTreeNode>) -> Seq<NodeModel>
    decreases s,
{
    if s.len() == 0 {
        Seq::empty()
    } else {
        node_models(s.drop_last()).push(s.last().model())
    }
}

impl View for TypeTreeNode {
    type V = NodeModel;

    open spec fn view(&self) -> NodeModel {
        self.model()
    }
}

pub proof fn lemma_node_models(s: Seq<TypeTreeNode>)
    ensures
        node_models(s).len() == s.len(),
        forall|i: int| 0 <= i < s.len() ==> node_models(s)[i] == (#[trigger] s[i]).model(),
    decreases s.len(),
{
    if s.len() > 0 {
        lemma_node_models(s.drop_last());
        assert forall|i: int| 0 <= i < s.len() implies node_models(s)[i] == (#[trigger] s[i]).model() by {
            if i < s.len() - 1 {
                assert(s.drop_last()[i] == s[i]);
            }
        }
    }
}

/// The types of a list of nodes.
pub open spec fn types_of(cs: Seq<NodeModel>) -> Seq<Seq<char>> {
    cs.map_values(|c: NodeModel| c.ty)
}

/// The class that rabex gives a node of type `ty` with children `cs`.
pub open spec fn node_kind(ty: Seq<char>, cs: Seq<NodeModel>) -> NodeKind {
    rabex_kind(ty, types_of(cs))
}

pub open spec fn sum(s: Seq<int>) -> int
    decreases s.len(),
{
    if s.len() == 0 {
        0
    } else {
        sum(s.drop_last()) + s.last()
    }
}

/// The sum of the non-negative entries of `s`.
pub open spec fn pos_sum(s: Seq<int>) -> int
    decreases s.len(),
{
    if s.len() == 0 {
        0
    } else {
        pos_sum(s.drop_last()) + (if s.last() > 0 {
            s.last()
        } else {
            0
        })
    }
}

pub open spec fn sizes_of(cs: Seq<NodeModel>) -> Seq<int> {
    cs.map_values(|c: NodeModel| c.byte_size)
}

/// Unity's byte size of a node of class `k` with children `cs`: the fixed
/// width of a primitive, -1 for dynamic containers, or else -1 when a child
/// has a variable size and the sum of the children's sizes otherwise.
pub open spec fn size_rule(k: NodeKind, cs: Seq<NodeModel>) -> int {
    match k {
        NodeKind::Bool | NodeKind::U8 | NodeKind::I8 | NodeKind::Char => 1,
        NodeKind::U16 | NodeKind::I16 => 2,
        NodeKind::U32 | NodeKind::I32 | NodeKind::Float => 4,
        NodeKind::U64 | NodeKind::I64 | NodeKind::Double => 8,
        NodeKind::Str | NodeKind::Mapping | NodeKind::Array | NodeKind::Untyped => -1,
        _ => if exists|i: int| 0 <= i < cs.len() && (#[trigger] cs[i]).byte_size < 0 {
            -1
        } else {
            sum(sizes_of(cs))
        },
    }
}

pub open spec fn is_scalar(k: NodeKind) -> bool {
    match k {
        NodeKind::Bool | NodeKind::U8 | NodeKind::U16 | NodeKind::U32 | NodeKind::U64
        | NodeKind::I8 | NodeKind::I16 | NodeKind::I32 | NodeKind::I64 | NodeKind::Float
        | NodeKind::Double | NodeKind::Char => true,
        _ => false,
    }
}

/// A scalar, or a struct (not a PPtr) whose every field is a plain value
/// type and whose size is a positive multiple of 4.
pub open spec fn node_pod(n: NodeModel) -> bool
    decreases n,
{
    let k = node_kind(n.ty, n.children);
    if is_scalar(k) {
        true
    } else if k == NodeKind::Struct {
        &&& !("PPtr"@.len() <= n.ty.len() && n.ty.take("PPtr"@.len() as int) == "PPtr"@)
        &&& n.byte_size > 0
        &&& n.byte_size % 4 == 0
        &&& forall|i: int| 0 <= i < n.children.len() ==> node_pod(#[trigger] n.children[i])
    } else {
        false
    }
}

/// The first node of `cs` named `data`.
pub open spec fn first_data(cs: Seq<NodeModel>) -> Option<NodeModel>
    decreases cs.len(),
{
    if cs.len() == 0 {
        None
    } else if cs[0].name == "data"@ {
        Some(cs[0])
    } else {
        first_data(cs.drop_first())
    }
}

/// Whether Unity aligns an `Array` node with children `cs`: its element is a
/// string or a plain value type.
pub open spec fn element_aligned(cs: Seq<NodeModel>) -> bool {
    match first_data(cs) {
        Some(d) => node_kind(d.ty, d.children) == NodeKind::Str || node_pod(d),
        None => false,
    }
}

/// The node built from the template node `f`.
pub open spec fn built(f: Field) -> NodeModel
    decreases f,
{
    let cs = built_all(f.children);
    let is_array = f.ty == "Array"@;
    NodeModel {
        ty: f.ty,
        name: f.name,
        byte_size: size_rule(node_kind(f.ty, cs), cs),
        type_flags: if is_array {
            1
        } else {
            0
        },
        meta_flag: if is_array {
            if element_aligned(cs) {
                ALIGN_FLAG as int
            } else {
                0
            }
        } else if f.aligned {
            ALIGN_FLAG as int
        } else {
            0
        },
        children: cs,
    }
}

pub open spec fn built_all(s: Seq<Field>) -> Seq<NodeModel>
    decreases s,
{
    if s.len() == 0 {
        Seq::empty()
    } else {
        built_all(s.drop_last()).push(built(s.last()))
    }
}

/// The number of nodes in a template tree.
pub open spec fn node_count(f: Field) -> nat
    decreases f,
{
    1 + nodes_count(f.children)
}

pub open spec fn nodes_count(s: Seq<Field>) -> nat
    decreases s,
{
    if s.len() == 0 {
        0
    } else {
        nodes_count(s.drop_last()) + node_count(s.last())
    }
}

/// Whether a node of class `k` takes the sum of its children's sizes.
pub open spec fn summed(k: NodeKind) -> bool {
    !is_scalar(k) && k != NodeKind::Str && k != NodeKind::Mapping && k != NodeKind::Array && k != NodeKind::Untyped
}

/// Every running total that adding up `s` reaches, from the front until
/// the first negative entry, fits in an `i32`.
pub open spec fn sum_fits(s: Seq<int>) -> bool {
    forall|i: int| 0 <= i <= s.len() && (forall|j: int| 0 <= j < i ==> s[j] >= 0) ==> #[trigger] sum(s.take(i)) <= i32::MAX
}

/// Whether the byte size of a node of type `ty` with children `cs` is computed within an `i32`.
pub open spec fn node_fits(ty: Seq<char>, cs: Seq<NodeModel>) -> bool {
    summed(node_kind(ty, cs)) ==> sum_fits(sizes_of(cs))
}

/// Whether building `f` computes every byte size within an `i32`.
pub open spec fn fits(f: Field) -> bool
    decreases f,
{
    &&& forall|i: int| 0 <= i < f.children.len() ==> fits(#[trigger] f.children[i])
    &&& node_fits(f.ty, built_all(f.children))
}

proof fn lemma_built_all(s: Seq<Field>)
    ensures
        built_all(s).len() == s.len(),
        forall|i: int| 0 <= i < s.len() ==> built_all(s)[i] == built(#[trigger] s[i]),
    decreases s.len(),
{
    if s.len() > 0 {
        lemma_built_all(s.drop_last());
        assert forall|i: int| 0 <= i < s.len() implies built_all(s)[i] == built(#[trigger] s[i]) by {
            if i < s.len() - 1 {
                assert(s.drop_last()[i] == s[i]);
            }
        }
    }
}

proof fn lemma_sum_take(s: Seq<int>, i: int)
    requires
        0 <= i < s.len(),
    ensures
        sum(s.take(i + 1)) == sum(s.take(i)) + s[i],
        pos_sum(s.take(i + 1)) == pos_sum(s.take(i)) + (if s[i] > 0 {
            s[i]
        } else {
            0
        }),
{
    assert(s.take(i + 1).drop_last() =~= s.take(i));
}

proof fn lemma_pos_sum_prefix(s: Seq<int>, i: int)
    requires
        0 <= i <= s.len(),
    ensures
        pos_sum(s.take(i)) <= pos_sum(s),
    decreases s.len() - i,
{
    if i < s.len() {
        lemma_sum_take(s, i);
        lemma_pos_sum_prefix(s, i + 1);
    } else {
        assert(s.take(i) =~= s);
    }
}

/// Sizes of built trees are at least -1 and at most 8 per node.
proof fn lemma_built_size(f: Field)
    ensures
        -1 <= built(f).byte_size <= 8 * node_count(f),
    decreases f,
{
    let cs = built_all(f.children);
    lemma_built_all_sizes(f.children);
    let k = node_kind(f.ty, cs);
    if !(exists|i: int| 0 <= i < cs.len() && (#[trigger] cs[i]).byte_size < 0) {
        lemma_nonneg_sum(sizes_of(cs));
    }
}

proof fn lemma_nonneg_sum(s: Seq<int>)
    requires
        forall|i: int| 0 <= i < s.len() ==> s[i] >= 0,
    ensures
        sum(s) == pos_sum(s),
        sum(s) >= 0,
    decreases s.len(),
{
    if s.len() > 0 {
        lemma_nonneg_sum(s.drop_last());
    }
}

proof fn lemma_built_all_sizes(s: Seq<Field>)
    ensures
        pos_sum(sizes_of(built_all(s))) <= 8 * nodes_count(s),
        forall|i: int| 0 <= i < built_all(s).len() ==> (#[trigger] built_all(s)[i]).byte_size >= -1,
    decreases s,
{
    lemma_built_all(s);
    if s.len() > 0 {
        lemma_built_all_sizes(s.drop_last());
        lemma_built_size(s.last());
        let cs = built_all(s);
        assert(sizes_of(cs).drop_last() =~= sizes_of(built_all(s.drop_last())));
        assert forall|i: int| 0 <= i < cs.len() implies (#[trigger] cs[i]).byte_size >= -1 by {
            lemma_built_size(s[i]);
        }
    }
}

pub open spec fn align_flag_of(aligned: bool) -> int {
    if aligned {
        ALIGN_FLAG as int
    } else {
        0
    }
}

/// The types of the children of a node, in order.
fn child_types(children: &Vec<TypeTreeNode>) -> (r: Vec<String>)
    ensures
        r@.map_values(|s: String| s@) == types_of(node_models(children@)),
{
    let mut r: Vec<String> = Vec::new();
    proof {
        lemma_node_models(children@);
    }
    let n = children.len();
    for i in 0..n
        invariant
            n == children@.len(),
            node_models(children@).len() == n,
            forall|j: int| 0 <= j < n ==> node_models(children@)[j] == (#[trigger] children@[j]).model(),
            r@.len() == i,
            forall|j: int| 0 <= j < i ==> (#[trigger] r@[j])@ == children@[j].ty@,
    {
        r.push(owned(children[i].ty.as_str()));
    }
    assert(r@.map_values(|s: String| s@) =~= types_of(node_models(children@)));
    r
}

/// Unity's `m_ByteSize` of `node`, from its class and its children's sizes.
pub fn byte_size(node: &TypeTreeNode) -> (r: i32)
    requires
        node_fits(node@.ty, node@.children),
    ensures
        r == size_rule(node_kind(node@.ty, node@.children), node@.children),
{
    let types = child_types(&node.children);
    let k = classify(node.ty.as_str(), &types);
    proof {
        lemma_node_models(node.children@);
    }
    match k {
        NodeKind::Bool | NodeKind::U8 | NodeKind::I8 | NodeKind::Char => 1,
        NodeKind::U16 | NodeKind::I16 => 2,
        NodeKind::U32 | NodeKind::I32 | NodeKind::Float => 4,
        NodeKind::U64 | NodeKind::I64 | NodeKind::Double => 8,
        NodeKind::Str | NodeKind::Mapping | NodeKind::Array | NodeKind::Untyped => -1,
        _ => {
            let ghost cs = node@.children;
            let ghost sizes = sizes_of(cs);
            let mut total: i32 = 0;
            let n = node.children.len();
            for i in 0..n
                invariant
                    n == node.children@.len(),
                    cs == node@.children,
                    sizes == sizes_of(cs),
                    k == node_kind(node@.ty, node@.children),
                    size_rule(k, cs) == (if exists|j: int| 0 <= j < cs.len() && (#[trigger] cs[j]).byte_size < 0 {
                        -1
                    } else {
                        sum(sizes_of(cs))
                    }),
                    cs.len() == n,
                    forall|j: int| 0 <= j < n ==> cs[j] == (#[trigger] node.children@[j]).model(),
                    summed(k),
                    sum_fits(sizes),
                    forall|j: int| 0 <= j < i ==> (#[trigger] cs[j]).byte_size >= 0,
                    total == sum(sizes.take(i as int)),
            {
                let c = node.children[i].byte_size;
                proof {
                    lemma_sum_take(sizes, i as int);
                }
                if c < 0 {
                    assert(cs[i as int].byte_size < 0);
                    return -1;
                }
                proof {
                    assert forall|j: int| 0 <= j < i + 1 implies sizes[j] >= 0 by {
                        assert(sizes[j] == cs[j].byte_size);
                    }
                    assert(sum(sizes.take(i + 1)) <= i32::MAX);
                }
                total = total + c;
            }
            proof {
                assert(sizes.take(n as int) =~= sizes);
            }
            total
        },
    }
}

/// Whether `node` is a plain value type: a scalar, or a struct (not a PPtr)
/// whose every field is a plain value type and whose serialized size is a
/// positive multiple of 4.
pub fn is_pod_value_type(node: &TypeTreeNode) -> (r: bool)
    ensures
        r == node_pod(node@),
    decreases node,
{
    let types = child_types(&node.children);
    let k = classify(node.ty.as_str(), &types);
    proof {
        lemma_node_models(node.children@);
    }
    match k {
        NodeKind::Bool | NodeKind::U8 | NodeKind::U16 | NodeKind::U32 | NodeKind::U64
        | NodeKind::I8 | NodeKind::I16 | NodeKind::I32 | NodeKind::I64 | NodeKind::Float
        | NodeKind::Double | NodeKind::Char => true,
        NodeKind::Struct => {
            if has_prefix(node.ty.as_str(), "PPtr") || !(node.byte_size > 0) || node.byte_size % 4
                != 0 {
                return false;
            }
            let n = node.children.len();
            for i in 0..n
                invariant
                    n == node.children@.len(),
                    node@.children.len() == n,
                    k == node_kind(node@.ty, node@.children),
                    k == NodeKind::Struct,
                    forall|j: int| 0 <= j < n ==> node@.children[j] == (#[trigger] node.children@[j]).model(),
                    forall|j: int| 0 <= j < i ==> node_pod(#[trigger] node@.children[j]),
            {
                if !is_pod_value_type(&node.children[i]) {
                    assert(!node_pod(node@.children[i as int]));
                    return false;
                }
            }
            true
        },
        _ => false,
    }
}

/// Whether an `Array` node's element (its first `data` child) is the kind
/// Unity 4-byte aligns: a string or a plain value type.
pub fn array_element_aligned(array_node: &TypeTreeNode) -> (r: bool)
    ensures
        r == element_aligned(array_node@.children),
{
    let ghost cs = array_node@.children;
    proof {
        lemma_node_models(array_node.children@);
    }
    let n = array_node.children.len();
    let mut i: usize = 0;
    assert(cs.skip(0) =~= cs);
    while i < n
        invariant
            n == array_node.children@.len(),
            cs == array_node@.children,
            cs.len() == n,
            forall|j: int| 0 <= j < n ==> cs[j] == (#[trigger] array_node.children@[j]).model(),
            i <= n,
            first_data(cs) == first_data(cs.skip(i as int)),
        decreases n - i,
    {
        let c = &array_node.children[i];
        assert(cs.skip(i as int)[0] == cs[i as int]);
        if text_eq(c.name.as_str(), "data") {
            let types = child_types(&c.children);
            let k = classify(c.ty.as_str(), &types);
            return k == NodeKind::Str || is_pod_value_type(c);
        }
        assert(cs.skip(i as int).drop_first() =~= cs.skip(i + 1));
        i = i + 1;
    }
    false
}

/// Whether the byte size of `node` is computed within an `i32`: each
/// running total of its children's sizes, up to the first negative one, fits.
pub fn sizes_fit(node: &TypeTreeNode) -> (r: bool)
    ensures
        r == node_fits(node@.ty, node@.children),
{
    let types = child_types(&node.children);
    let k = classify(node.ty.as_str(), &types);
    proof {
        lemma_node_models(node.children@);
    }
    match k {
        NodeKind::Bool | NodeKind::U8 | NodeKind::I8 | NodeKind::Char | NodeKind::U16 | NodeKind::I16
        | NodeKind::U32 | NodeKind::I32 | NodeKind::Float | NodeKind::U64 | NodeKind::I64 | NodeKind::Double
        | NodeKind::Str | NodeKind::Mapping | NodeKind::Array | NodeKind::Untyped => true,
        _ => {
            let ghost cs = node@.children;
            let ghost sizes = sizes_of(cs);
            let mut total: i64 = 0;
            let n = node.children.len();
            assert(sizes.take(0) =~= Seq::<int>::empty());
            for i in 0..n
                invariant
                    n == node.children@.len(),
                    cs == node@.children,
                    sizes == sizes_of(cs),
                    cs.len() == n,
                    forall|j: int| 0 <= j < n ==> cs[j] == (#[trigger] node.children@[j]).model(),
                    forall|j: int| 0 <= j < i ==> (#[trigger] sizes[j]) >= 0,
                    total == sum(sizes.take(i as int)),
                    forall|m: int| 0 <= m <= i ==> #[trigger] sum(sizes.take(m)) <= i32::MAX,
                    k == node_kind(node@.ty, node@.children),
                    summed(k),
            {
                let c = node.children[i].byte_size;
                proof {
                    lemma_sum_take(sizes, i as int);
                    assert(sizes[i as int] == c);
                }
                if c < 0 {
                    proof {
                        assert forall|m: int| 0 <= m <= sizes.len() && (forall|j: int| 0 <= j < m ==> sizes[j] >= 0) implies #[trigger] sum(sizes.take(m)) <= i32::MAX by {
                            if m > i {
                                assert(sizes[i as int] < 0);
                            }
                        }
                    }
                    return true;
                }
                total = total + c as i64;
                if total > 0x7fff_ffff {
                    proof {
                        let m = i + 1;
                        assert(forall|j: int| 0 <= j < m ==> sizes[j] >= 0);
                        assert(sum(sizes.take(m)) > i32::MAX);
                        if sum_fits(sizes) {
                            assert(sum(sizes.take(m)) <= i32::MAX);
                        }
                        assert(summed(node_kind(node@.ty, node@.children)));
                    }
                    return false;
                }
            }
            assert(sizes.take(n as int) =~= sizes);
            true
        },
    }
}

/// Builds the finished node for the template node `field`, or `None` when a
/// byte size in it would not fit in an `i32`.
pub fn build_node(field: &TemplateField) -> (r: Option<TypeTreeNode>)
    ensures
        r is Some <==> fits(field@),
        r matches Some(n) ==> n@ == built(field@),
    decreases field,
{
    let ghost f = field@;
    proof {
        lemma_models(field.children@);
        lemma_built_all(f.children);
    }
    let mut children: Vec<TypeTreeNode> = Vec::new();
    let n = field.children.len();
    for i in 0..n
        invariant
            n == field.children@.len(),
            f == field@,
            f.children.len() == n,
            forall|j: int| 0 <= j < n ==> f.children[j] == (#[trigger] field.children@[j]).model(),
            built_all(f.children).len() == n,
            forall|j: int| 0 <= j < n ==> built_all(f.children)[j] == built(#[trigger] f.children[j]),
            children@.len() == i,
            forall|j: int| 0 <= j < i ==> fits(#[trigger] f.children[j]),
            forall|j: int| 0 <= j < i ==> (#[trigger] children@[j]).model() == built(f.children[j]),
    {
        match build_node(&field.children[i]) {
            Some(c) => children.push(c),
            None => {
                assert(!fits(f.children[i as int]));
                return None;
            },
        }
    }
    proof {
        lemma_node_models(children@);
        assert forall|j: int| 0 <= j < n implies node_models(children@)[j] == built_all(f.children)[j] by {
            assert(children@[j].model() == built(f.children[j]));
        }
        assert(node_models(children@) =~= built_all(f.children));
    }
    let mut node = TypeTreeNode {
        ty: owned(field.ty.as_str()),
        name: owned(field.name.as_str()),
        byte_size: 0,
        type_flags: 0,
        meta_flag: if field.aligned {
            ALIGN_FLAG
        } else {
            0
        },
        children,
    };
    if !sizes_fit(&node) {
        return None;
    }
    let size = byte_size(&node);
    node.byte_size = size;
    if text_eq(node.ty.as_str(), "Array") {
        node.type_flags = 1;
        let aligned = array_element_aligned(&node);
        node.meta_flag = if aligned {
            ALIGN_FLAG
        } else {
            0
        };
    }
    Some(node)
}

/// The `Base` template node that holds the fields of a script.
pub open spec fn base_field(children: Seq<Field>, class_name: Seq<char>) -> Field {
    Field { name: "Base"@, ty: class_name, aligned: false, children }
}

/// The root built from the fields of a script: a `Base` node whose type is
/// the class name, always stored as variable-size (-1).
pub open spec fn assembled(children: Seq<Field>, class_name: Seq<char>) -> NodeModel {
    NodeModel { byte_size: -1, ..built(base_field(children, class_name)) }
}

/// Wraps a script's serialized fields in the `Base` root (type = the class
/// name) and builds the finished tree, or `None` when a byte size in it
/// would not fit in an `i32`.
pub fn assemble(children: Vec<TemplateField>, class_name: &str) -> (r: Option<TypeTreeNode>)
    ensures
        r is Some <==> fits(base_field(models(children@), class_name@)),
        r matches Some(t) ==> t@ == assembled(models(children@), class_name@),
{
    let base = TemplateField { name: owned("Base"), ty: owned(class_name), aligned: false, children };
    proof {
        reveal_strlit("Base");
    }
    match build_node(&base) {
        Some(mut root) => {
            root.byte_size = -1;
            Some(root)
        },
        None => None,
    }
}

/// Building keeps the shape of the template: each node keeps its name and
/// type, and its children are the built children of the template node.
pub proof fn law_built_shape(f: Field)
    ensures
        built(f).name == f.name,
        built(f).ty == f.ty,
        built(f).children.len() == f.children.len(),
        forall|i: int| 0 <= i < f.children.len() ==> built(f).children[i] == built(#[trigger] f.children[i]),
{
    lemma_built_all(f.children);
}

/// Exactly `Array` nodes are flagged as arrays; any other node carries the
/// align flag iff its template node is aligned.
pub proof fn law_array_and_align_flags(f: Field)
    ensures
        built(f).type_flags == 1 <==> f.ty == "Array"@,
        built(f).type_flags == 0 <==> f.ty != "Array"@,
        f.ty != "Array"@ ==> built(f).meta_flag == align_flag_of(f.aligned),
        built(f).meta_flag == 0 || built(f).meta_flag == ALIGN_FLAG as int,
{
}

/// A plain-value struct always has a positive size that is a multiple of 4:
/// aligning an array of it never inserts padding that the data lacks.
pub proof fn law_pod_struct_size(n: NodeModel)
    requires
        node_pod(n),
        node_kind(n.ty, n.children) == NodeKind::Struct,
    ensures
        n.byte_size > 0,
        n.byte_size % 4 == 0,
{
}

/// A node whose size is the sum of its children's is variable-size (-1) as
/// soon as one child is.
pub proof fn law_variable_member_propagates(k: NodeKind, cs: Seq<NodeModel>, i: int)
    requires
        !is_scalar(k),
        k != NodeKind::Str && k != NodeKind::Mapping && k != NodeKind::Array && k != NodeKind::Untyped,
        0 <= i < cs.len(),
        cs[i].byte_size < 0,
    ensures
        size_rule(k, cs) == -1,
{
    assert(cs[i].byte_size < 0);
}

/// An `int` field is 4 bytes wide.
pub proof fn law_int_is_four_bytes(f: Field)
    requires
        f.ty == "int"@,
    ensures
        built(f).byte_size == 4,
{
    reveal_strlit("int");
    assert(f.ty.len() == 3);
    reveal_strlit("bool");
    assert("bool"@.len() == 4);
    reveal_strlit("UInt8");
    assert("UInt8"@.len() == 5);
    reveal_strlit("UInt16");
    assert("UInt16"@.len() == 6);
    reveal_strlit("unsigned short");
    assert("unsigned short"@.len() == 14);
    reveal_strlit("UInt32");
    assert("UInt32"@.len() == 6);
    reveal_strlit("unsigned int");
    assert("unsigned int"@.len() == 12);
    reveal_strlit("Type*");
    assert("Type*"@.len() == 5);
    reveal_strlit("UInt64");
    assert("UInt64"@.len() == 6);
    reveal_strlit("unsigned long long");
    assert("unsigned long long"@.len() == 18);
    reveal_strlit("FileSize");
    assert("FileSize"@.len() == 8);
    reveal_strlit("SInt8");
    assert("SInt8"@.len() == 5);
    reveal_strlit("SInt16");
    assert("SInt16"@.len() == 6);
    reveal_strlit("short");
    assert("short"@.len() == 5);
    reveal_strlit("SInt32");
    assert("SInt32"@.len() == 6);
    assert(node_kind(f.ty, built_all(f.children)) == NodeKind::I32);
}

/// Sizes in a built tree lie between -1 and 8 bytes per node.
pub proof fn law_built_size_bounds(f: Field)
    ensures
        -1 <= built(f).byte_size <= 8 * node_count(f),
{
    lemma_built_size(f);
}

/// The root of an assembled tree is the variable-size `Base` node typed with
/// the class name, over the built fields.
pub proof fn law_root(children: Seq<Field>, class_name: Seq<char>)
    ensures
        assembled(children, class_name).name == "Base"@,
        assembled(children, class_name).ty == class_name,
        assembled(children, class_name).byte_size == -1,
        assembled(children, class_name).children == built_all(children),
{
}
/// An 8-byte scalar (`SInt64`, `UInt64`, `double` and their aliases) is 8 bytes wide.
pub proof fn law_eight_byte_scalars(f: Field)
    requires
        f.ty == "SInt64"@ || f.ty == "long long"@ || f.ty == "UInt64"@ || f.ty == "unsigned long long"@
            || f.ty == "FileSize"@ || f.ty == "double"@,
    ensures
        built(f).byte_size == 8,
{
    reveal_strlit("bool");
    assert("bool"@.len() == 4);
    reveal_strlit("UInt8");
    assert("UInt8"@.len() == 5);
    reveal_strlit("UInt16");
    assert("UInt16"@.len() == 6);
    reveal_strlit("unsigned short");
    assert("unsigned short"@.len() == 14);
    reveal_strlit("UInt32");
    assert("UInt32"@.len() == 6);
    reveal_strlit("unsigned int");
    assert("unsigned int"@.len() == 12);
    reveal_strlit("Type*");
    assert("Type*"@.len() == 5);
    reveal_strlit("UInt64");
    assert("UInt64"@.len() == 6);
    reveal_strlit("unsigned long long");
    assert("unsigned long long"@.len() == 18);
    reveal_strlit("FileSize");
    assert("FileSize"@.len() == 8);
    reveal_strlit("SInt8");
    assert("SInt8"@.len() == 5);
    reveal_strlit("SInt16");
    assert("SInt16"@.len() == 6);
    reveal_strlit("short");
    assert("short"@.len() == 5);
    reveal_strlit("SInt32");
    assert("SInt32"@.len() == 6);
    reveal_strlit("int");
    assert("int"@.len() == 3);
    reveal_strlit("SInt64");
    assert("SInt64"@.len() == 6);
    reveal_strlit("long long");
    assert("long long"@.len() == 9);
    reveal_strlit("float");
    assert("float"@.len() == 5);
    reveal_strlit("double");
    assert("double"@.len() == 6);
    reveal_strlit("char");
    assert("char"@.len() == 4);
    reveal_strlit("string");
    assert("string"@.len() == 6);
    reveal_strlit("map");
    assert("map"@.len() == 3);
    reveal_strlit("Type");
    assert("Type"@.len() == 4);
    reveal_strlit("Array");
    assert("Array"@.len() == 5);
    reveal_strlit("TypelessData");
    assert("TypelessData"@.len() == 12);
    reveal_strlit("ReferencedObject");
    assert("ReferencedObject"@.len() == 16);
    reveal_strlit("ReferencedObjectData");
    assert("ReferencedObjectData"@.len() == 20);
    reveal_strlit("ManagedReferencesRegistry");
    assert("ManagedReferencesRegistry"@.len() == 25);
    if f.ty == "SInt64"@ {
        assert("SInt64"@[0] != "UInt16"@[0]);
        assert("SInt64"@[0] != "UInt32"@[0]);
        assert("SInt64"@[0] != "UInt64"@[0]);
        assert("SInt64"@[4] != "SInt16"@[4]);
        assert("SInt64"@[4] != "SInt32"@[4]);
    }
    if f.ty == "long long"@ {
    }
    if f.ty == "UInt64"@ {
        assert("UInt64"@[4] != "UInt16"@[4]);
        assert("UInt64"@[4] != "UInt32"@[4]);
    }
    if f.ty == "unsigned long long"@ {
    }
    if f.ty == "FileSize"@ {
    }
    if f.ty == "double"@ {
        assert("double"@[0] != "UInt16"@[0]);
        assert("double"@[0] != "UInt32"@[0]);
        assert("double"@[0] != "UInt64"@[0]);
        assert("double"@[0] != "SInt16"@[0]);
        assert("double"@[0] != "SInt32"@[0]);
        assert("double"@[0] != "SInt64"@[0]);
    }
}

/// From Unity 5 on, a `PPtr` field is 12 bytes: an `int` file id and an
/// `SInt64` path id.
pub proof fn law_pptr_is_twelve_bytes(name: Seq<char>, class_name: Seq<char>, v: UnityVersion)
    requires
        v.major >= 5,
    ensures
        built(pptr_field_model(name, class_name, v)).byte_size == 12,
{
    reveal_strlit("bool");
    assert("bool"@.len() == 4);
    reveal_strlit("UInt8");
    assert("UInt8"@.len() == 5);
    reveal_strlit("UInt16");
    assert("UInt16"@.len() == 6);
    reveal_strlit("unsigned short");
    assert("unsigned short"@.len() == 14);
    reveal_strlit("UInt32");
    assert("UInt32"@.len() == 6);
    reveal_strlit("unsigned int");
    assert("unsigned int"@.len() == 12);
    reveal_strlit("Type*");
    assert("Type*"@.len() == 5);
    reveal_strlit("UInt64");
    assert("UInt64"@.len() == 6);
    reveal_strlit("unsigned long long");
    assert("unsigned long long"@.len() == 18);
    reveal_strlit("FileSize");
    assert("FileSize"@.len() == 8);
    reveal_strlit("SInt8");
    assert("SInt8"@.len() == 5);
    reveal_strlit("SInt16");
    assert("SInt16"@.len() == 6);
    reveal_strlit("short");
    assert("short"@.len() == 5);
    reveal_strlit("SInt32");
    assert("SInt32"@.len() == 6);
    reveal_strlit("int");
    assert("int"@.len() == 3);
    reveal_strlit("SInt64");
    assert("SInt64"@.len() == 6);
    reveal_strlit("long long");
    assert("long long"@.len() == 9);
    reveal_strlit("float");
    assert("float"@.len() == 5);
    reveal_strlit("double");
    assert("double"@.len() == 6);
    reveal_strlit("char");
    assert("char"@.len() == 4);
    reveal_strlit("string");
    assert("string"@.len() == 6);
    reveal_strlit("map");
    assert("map"@.len() == 3);
    reveal_strlit("Type");
    assert("Type"@.len() == 4);
    reveal_strlit("Array");
    assert("Array"@.len() == 5);
    reveal_strlit("TypelessData");
    assert("TypelessData"@.len() == 12);
    reveal_strlit("ReferencedObject");
    assert("ReferencedObject"@.len() == 16);
    reveal_strlit("ReferencedObjectData");
    assert("ReferencedObjectData"@.len() == 20);
    reveal_strlit("ManagedReferencesRegistry");
    assert("ManagedReferencesRegistry"@.len() == 25);
    let f = pptr_field_model(name, class_name, v);
    let ty = f.ty;
    reveal_strlit("PPtr<");
    assert("PPtr<"@.len() == 5);
    assert(ty[0] == 'P');
    assert(ty[0] != "bool"@[0]);
    assert(ty[0] != "UInt8"@[0]);
    assert(ty[0] != "UInt16"@[0]);
    assert(ty[0] != "unsigned short"@[0]);
    assert(ty[0] != "UInt32"@[0]);
    assert(ty[0] != "unsigned int"@[0]);
    assert(ty[0] != "Type*"@[0]);
    assert(ty[0] != "UInt64"@[0]);
    assert(ty[0] != "unsigned long long"@[0]);
    assert(ty[0] != "FileSize"@[0]);
    assert(ty[0] != "SInt8"@[0]);
    assert(ty[0] != "SInt16"@[0]);
    assert(ty[0] != "short"@[0]);
    assert(ty[0] != "SInt32"@[0]);
    assert(ty[0] != "int"@[0]);
    assert(ty[0] != "SInt64"@[0]);
    assert(ty[0] != "long long"@[0]);
    assert(ty[0] != "float"@[0]);
    assert(ty[0] != "double"@[0]);
    assert(ty[0] != "char"@[0]);
    assert(ty[0] != "string"@[0]);
    assert(ty[0] != "map"@[0]);
    assert(ty[0] != "Type"@[0]);
    assert(ty[0] != "Array"@[0]);
    assert(ty[0] != "TypelessData"@[0]);
    assert(ty[0] != "ReferencedObject"@[0]);
    assert(ty[0] != "ReferencedObjectData"@[0]);
    assert(ty[0] != "ManagedReferencesRegistry"@[0]);
    let cs = built_all(f.children);
    lemma_built_all(f.children);
    law_int_is_four_bytes(f.children[0]);
    law_eight_byte_scalars(f.children[1]);
    assert(types_of(cs) =~= seq!["int"@, "SInt64"@]);
    assert(node_kind(ty, cs) == NodeKind::Struct);
    assert(cs[0] == built(f.children[0]) && cs[1] == built(f.children[1]));
    assert(cs[0].byte_size == 4 && cs[1].byte_size == 8);
    assert(forall|i: int| 0 <= i < cs.len() ==> (#[trigger] cs[i]).byte_size >= 0);
    let sz = sizes_of(cs);
    assert(sz =~= seq![4int, 8int]);
    assert(sz.drop_last() =~= seq![4int]);
    assert(sz.drop_last().drop_last() =~= Seq::<int>::empty());
    assert(sum(sz.drop_last().drop_last()) == 0);
    assert(sum(sz.drop_last()) == 4);
    assert(sum(sz) == 12);
    assert(size_rule(NodeKind::Struct, cs) == 12);
}

} // verus!
