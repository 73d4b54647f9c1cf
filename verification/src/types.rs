//! The restricted scalar type system allowed at leaf positions of the
//! document's free-form tables, and its deterministic flattening into
//! strings.
//!
//! A float is carried as its already-rendered decimal text: the library
//! never computes with it, it only passes the text through.

use vstd::prelude::*;

use crate::text::{dec_str, join_with};

verus! {

/// One of the four scalar kinds allowed at leaf positions.
#[derive(Debug, PartialEq, Eq)]
pub enum Primitive {
    Bool(bool),
    Int(i64),
    /// The decimal text of the float, as the source syntax rendered it.
    Float(String),
    Str(String),
}

/// The mathematical model of a [`Primitive`].
pub enum PrimitiveModel {
    Bool(bool),
    Int(i64),
    Float(Seq<char>),
    Str(Seq<char>),
}

impl View for Primitive {
    type V = PrimitiveModel;

    open spec fn view(&self) -> PrimitiveModel {
        match self {
            Primitive::Bool(b) => PrimitiveModel::Bool(*b),
            Primitive::Int(i) => PrimitiveModel::Int(*i),
            Primitive::Float(f) => PrimitiveModel::Float(f@),
            Primitive::Str(s) => PrimitiveModel::Str(s@),
        }
    }
}

impl DeepView for Primitive {
    type V = PrimitiveModel;

    open spec fn deep_view(&self) -> PrimitiveModel {
        self.view()
    }
}

impl Clone for Primitive {
    /// An equal scalar.
    fn clone(&self) -> (r: Primitive)
        ensures
            r == *self,
    {
        match self {
            Primitive::Bool(b) => Primitive::Bool(*b),
            Primitive::Int(i) => Primitive::Int(*i),
            Primitive::Float(f) => Primitive::Float(f.clone()),
            Primitive::Str(s) => Primitive::Str(s.clone()),
        }
    }
}

/// The string form of a scalar: booleans as `true`/`false`, integers in
/// decimal, floats and strings as their own text.
pub open spec fn spec_flatten_primitive(p: PrimitiveModel) -> Seq<char> {
    match p {
        PrimitiveModel::Bool(b) => if b {
            "true"@
        } else {
            "false"@
        },
        PrimitiveModel::Int(i) => dec_str(i as int),
        PrimitiveModel::Float(f) => f,
        PrimitiveModel::Str(s) => s,
    }
}

/// A scalar field or an ordered sequence of scalars.
#[derive(Debug, PartialEq, Eq)]
pub enum PrimitiveArray {
    Single(Primitive),
    Multiple(Vec<Primitive>),
}

/// The mathematical model of a [`PrimitiveArray`].
pub enum PrimitiveArrayModel {
    Single(PrimitiveModel),
    Multiple(Seq<PrimitiveModel>),
}

impl View for PrimitiveArray {
    type V = PrimitiveArrayModel;

    open spec fn view(&self) -> PrimitiveArrayModel {
        match self {
            PrimitiveArray::Single(p) => PrimitiveArrayModel::Single(p@),
            PrimitiveArray::Multiple(v) => PrimitiveArrayModel::Multiple(
                v@.map_values(|p: Primitive| p@),
            ),
        }
    }
}

impl DeepView for PrimitiveArray {
    type V = PrimitiveArrayModel;

    open spec fn deep_view(&self) -> PrimitiveArrayModel {
        self.view()
    }
}

impl Clone for PrimitiveArray {
    /// A field with the same model.
    fn clone(&self) -> (r: PrimitiveArray)
        ensures
            r@ == self@,
    {
        match self {
            PrimitiveArray::Single(p) => PrimitiveArray::Single(p.clone()),
            PrimitiveArray::Multiple(ps) => {
                let c = ps.clone();
                proof {
                    assert forall|i: int| 0 <= i < ps@.len() implies c@[i] == ps@[i] by {
                        assert(cloned::<Primitive>(ps[i], c[i]));
                    }
                    assert(c@ =~= ps@);
                }
                PrimitiveArray::Multiple(c)
            },
        }
    }
}

/// The comma-joined string forms of a sequence of scalars, in order.
pub open spec fn spec_flatten_seq(ps: Seq<PrimitiveModel>) -> Seq<char>
    decreases ps.len(),
{
    if ps.len() == 0 {
        Seq::empty()
    } else if ps.len() == 1 {
        spec_flatten_primitive(ps[0])
    } else {
        spec_flatten_primitive(ps[0]) + seq![','] + spec_flatten_seq(ps.drop_first())
    }
}

/// The flattened string form of an array field: a single scalar flattens as
/// that scalar alone, a sequence flattens to the comma-joined forms.
pub open spec fn spec_flatten_array(a: PrimitiveArrayModel) -> Seq<char> {
    match a {
        PrimitiveArrayModel::Single(p) => spec_flatten_primitive(p),
        PrimitiveArrayModel::Multiple(ps) => spec_flatten_seq(ps),
    }
}

/// Flattening a sequence of scalars is joining their individual string
/// forms, in order, with a comma separator.
pub proof fn lemma_flatten_is_join(ps: Seq<PrimitiveModel>)
    ensures
        spec_flatten_seq(ps) == join_with(
            ps.map_values(|p: PrimitiveModel| spec_flatten_primitive(p)),
            ","@,
        ),
    decreases ps.len(),
{
    let parts = ps.map_values(|p: PrimitiveModel| spec_flatten_primitive(p));
    reveal_strlit(",");
    if ps.len() == 0 {
    } else if ps.len() == 1 {
        assert(parts[0] == spec_flatten_primitive(ps[0]));
    } else {
        lemma_flatten_is_join(ps.drop_first());
        assert(ps.drop_first().map_values(|p: PrimitiveModel| spec_flatten_primitive(p))
            =~= parts.drop_first());
        assert(seq![','] =~= ","@);
    }
}

/// A single scalar field flattens exactly as the scalar alone.
pub proof fn lemma_flatten_single(p: PrimitiveModel)
    ensures
        spec_flatten_array(PrimitiveArrayModel::Single(p)) == spec_flatten_primitive(p),
{
}

/// Appending one more scalar appends a comma and its string form, except to
/// an empty sequence.
pub proof fn lemma_flatten_seq_push(ps: Seq<PrimitiveModel>, p: PrimitiveModel)
    ensures
        spec_flatten_seq(ps.push(p)) == if ps.len() == 0 {
            spec_flatten_primitive(p)
        } else {
            spec_flatten_seq(ps) + seq![','] + spec_flatten_primitive(p)
        },
    decreases ps.len(),
{
    if ps.len() == 0 {
        assert(ps.push(p)[0] == p);
    } else {
        lemma_flatten_seq_push(ps.drop_first(), p);
        assert(ps.push(p).drop_first() =~= ps.drop_first().push(p));
        if ps.len() == 1 {
            assert(ps.drop_first().len() == 0);
        } else {
            assert((spec_flatten_primitive(ps[0]) + seq![','] + (spec_flatten_seq(
                ps.drop_first(),
            ) + seq![','] + spec_flatten_primitive(p))) =~= ((spec_flatten_primitive(ps[0])
                + seq![','] + spec_flatten_seq(ps.drop_first())) + seq![',']
                + spec_flatten_primitive(p)));
        }
    }
}

impl Primitive {
    /// The deterministic string form of this scalar.
    pub fn flatten(&self) -> (r: String)
        ensures
            r@ == spec_flatten_primitive(self@),
    {
        match self {
            Primitive::Bool(b) => {
                if *b {
                    "true".to_owned()
                } else {
                    "false".to_owned()
                }
            },
            Primitive::Int(i) => crate::text::i64_to_string(*i),
            Primitive::Float(f) => f.clone(),
            Primitive::Str(s) => s.clone(),
        }
    }
}

impl PrimitiveArray {
    /// The deterministic flattened string form of this field: scalars
    /// flatten alone, sequences flatten to their comma-joined scalar forms.
    pub fn flatten(&self) -> (r: String)
        ensures
            r@ == spec_flatten_array(self@),
    {
        match self {
            PrimitiveArray::Single(p) => p.flatten(),
            PrimitiveArray::Multiple(ps) => {
                let ghost model = ps@.map_values(|p: Primitive| p@);
                let mut out = String::new();
                let mut i: usize = 0;
                while i < ps.len()
                    invariant
                        i <= ps.len(),
                        model == ps@.map_values(|p: Primitive| p@),
                        out@ == spec_flatten_seq(model.take(i as int)),
                    decreases ps.len() - i,
                {
                    if i > 0 {
                        out.append(",");
                        proof {
                            reveal_strlit(",");
                            assert(","@ =~= seq![',']);
                        }
                    }
                    let piece = ps[i].flatten();
                    out.append(piece.as_str());
                    proof {
                        let prefix = model.take(i as int);
                        assert(model.take(i + 1) =~= prefix.push(model[i as int]));
                        lemma_flatten_seq_push(prefix, model[i as int]);
                        if i == 0 {
                            assert(prefix.len() == 0);
                        }
                    }
                    i = i + 1;
                }
                assert(model.take(ps.len() as int) =~= model);
                out
            },
        }
    }
}

} // verus!
