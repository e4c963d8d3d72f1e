//! The tuple projection of a record: the positional, name-free wire types of
//! its fields, with each nested record replaced by its own projection.
use vstd::prelude::*;
use crate::wire::{ScalarKind, code_of};
use crate::schema::{Schema, TypeRef};

verus! {

/// A wire-facing type of a tuple position.
#[derive(Debug)]
pub enum TupleType {
    Scalar(ScalarKind),
    Wrapper(Box<TupleType>),
    List(Box<TupleType>),
    Dict(ScalarKind, Box<TupleType>),
    /// The tuple projection of a record of the registry, by index.
    Tuple(usize),
    /// An enumeration: its backing scalar is what travels.
    Enum(usize),
    /// A property map: a dictionary of variants.
    PropMap(usize),
}

/// The projection of a field type: the same shape, with records replaced by
/// their tuples.
pub open spec fn project(t: TypeRef) -> TupleType
    decreases t,
{
    match t {
        TypeRef::Scalar(k) => TupleType::Scalar(k),
        TypeRef::Wrapper(b) => TupleType::Wrapper(Box::new(project(*b))),
        TypeRef::List(b) => TupleType::List(Box::new(project(*b))),
        TypeRef::Dict(k, b) => TupleType::Dict(k, Box::new(project(*b))),
        TypeRef::Composite(j) => TupleType::Tuple(j),
        TypeRef::Enum(j) => TupleType::Enum(j),
        TypeRef::PropMap(j) => TupleType::PropMap(j),
    }
}

impl Schema {
    /// The signature of a tuple position; a tuple is framed as a structure.
    pub open spec fn tuple_type_sig(&self, t: TupleType, bound: nat) -> Seq<char>
        decreases t,
    {
        match t {
            TupleType::Scalar(k) => seq![code_of(k)],
            TupleType::Wrapper(b) => self.tuple_type_sig(*b, bound),
            TupleType::List(b) => seq!['a'] + self.tuple_type_sig(*b, bound),
            TupleType::Dict(k, b) => seq!['a', '{', code_of(k)] + self.tuple_type_sig(*b, bound) + seq!['}'],
            TupleType::Tuple(j) => if j < bound {
                self.record_sig(j as nat)
            } else {
                Seq::empty()
            },
            TupleType::Enum(j) => if j < self.enums@.len() {
                seq![code_of(self.enums@[j as int].backing)]
            } else {
                Seq::empty()
            },
            TupleType::PropMap(_) => crate::signature::prop_map_sig(),
        }
    }
}

/// Projecting keeps the signature: a field type and its projection have the same
/// wire signature.
pub proof fn lemma_projection_keeps_signature(s: &Schema, t: TypeRef, bound: nat)
    ensures
        s.tuple_type_sig(project(t), bound) == s.type_sig(t, bound),
    decreases t,
{
    match t {
        TypeRef::Wrapper(b) => lemma_projection_keeps_signature(s, *b, bound),
        TypeRef::List(b) => lemma_projection_keeps_signature(s, *b, bound),
        TypeRef::Dict(_, b) => lemma_projection_keeps_signature(s, *b, bound),
        _ => {},
    }
}

/// The projection of a field type.
pub fn project_type(t: &TypeRef) -> (r: TupleType)
    ensures
        r == project(*t),
    decreases t,
{
    match t {
        TypeRef::Scalar(k) => TupleType::Scalar(*k),
        TypeRef::Wrapper(b) => TupleType::Wrapper(Box::new(project_type(b))),
        TypeRef::List(b) => TupleType::List(Box::new(project_type(b))),
        TypeRef::Dict(k, b) => TupleType::Dict(*k, Box::new(project_type(b))),
        TypeRef::Composite(j) => TupleType::Tuple(*j),
        TypeRef::Enum(j) => TupleType::Enum(*j),
        TypeRef::PropMap(j) => TupleType::PropMap(*j),
    }
}

impl Schema {
    /// The tuple projection of record `i`: the projection of each field's type,
    /// by position.
    pub fn tuple_projection(&self, i: usize) -> (r: Vec<TupleType>)
        requires
            i < self.records@.len(),
        ensures
            r@.len() == self.records@[i as int].fields@.len(),
            forall|k: int| 0 <= k < r@.len() ==> #[trigger] r@[k] == project(self.records@[i as int].fields@[k].ty),
    {
        let fs = &self.records[i].fields;
        let mut out: Vec<TupleType> = Vec::new();
        let mut k: usize = 0;
        while k < fs.len()
            invariant
                fs == &self.records@[i as int].fields,
                k <= fs@.len(),
                out@.len() == k,
                forall|m: int| 0 <= m < k ==> #[trigger] out@[m] == project(fs@[m].ty),
            decreases fs@.len() - k,
        {
            out.push(project_type(&fs[k].ty));
            k = k + 1;
        }
        out
    }
}

} // verus!
