//! The template tree: a node type for the fields of a serialized script and its value.
use vstd::prelude::*;

verus! {

/// One node of a template tree.
#[derive(Debug)]
pub struct TemplateField {
    pub name: String,
    pub ty: String,
    pub aligned: bool,
    pub children: Vec<TemplateField>,
}

/// The mathematical value of a [`TemplateField`].
pub struct Field {
    pub name: Seq<char>,
    pub ty: Seq<char>,
    pub aligned: bool,
    pub children: Seq<Field>,
}

impl TemplateField {
    pub open spec fn model(self) -> Field
        decreases self,
    {
        Field {
            name: self.name@,
            ty: self.ty@,
            aligned: self.aligned,
            children: models(self.children@),
        }
    }
}

/// The values of a sequence of template nodes.
pub open spec fn models(s: Seq<TemplateField>) -> Seq<Field>
    decreases s,
{
    if s.len() == 0 {
        Seq::empty()
    } else {
        models(s.drop_last()).push(s.last().model())
    }
}

impl View for TemplateField {
    type V = Field;

    open spec fn view(&self) -> Field {
        self.model()
    }
}

pub broadcast proof fn lemma_models(s: Seq<TemplateField>)
    ensures
        (#[trigger] models(s)).len() == s.len(),
        forall|i: int| 0 <= i < s.len() ==> models(s)[i] == (#[trigger] s[i]).model(),
    decreases s.len(),
{
    if s.len() > 0 {
        lemma_models(s.drop_last());
        assert forall|i: int| 0 <= i < s.len() implies models(s)[i] == (#[trigger] s[i]).model() by {
            if i < s.len() - 1 {
                assert(s.drop_last()[i] == s[i]);
            }
        }
    }
}

pub broadcast group group_models {
    lemma_models,
}

/// Values of an optional list of children.
pub open spec fn opt_models(o: Option<Vec<TemplateField>>) -> Option<Seq<Field>> {
    match o {
        Some(v) => Some(models(v@)),
        None => None,
    }
}

pub open spec fn fnode(name: Seq<char>, ty: Seq<char>, aligned: bool, children: Seq<Field>) -> Field {
    Field { name, ty, aligned, children }
}

pub open spec fn fleaf(name: Seq<char>, ty: Seq<char>, aligned: bool) -> Field {
    fnode(name, ty, aligned, Seq::empty())
}

/// The value of a concatenation is the concatenation of the values.
pub proof fn lemma_models_concat(a: Seq<TemplateField>, b: Seq<TemplateField>)
    ensures
        models(a + b) == models(a) + models(b),
{
    lemma_models(a);
    lemma_models(b);
    lemma_models(a + b);
    assert forall|i: int| 0 <= i < (a + b).len() implies models(a + b)[i] == (models(a) + models(b))[i] by {
        if i < a.len() {
            assert((a + b)[i] == a[i]);
        } else {
            assert((a + b)[i] == b[i - a.len()]);
        }
    }
    assert(models(a + b) =~= models(a) + models(b));
}

} // verus!
