//! The schema model: classified field types, record, enumeration and property-map
//! schemas, and the registry that ties them together.
use vstd::prelude::*;
use crate::wire::{ScalarKind, is_key_kind, is_integer_kind, kind_max};

verus! {

/// A classified field type.
#[derive(Debug)]
pub enum TypeRef {
    /// A primitive carried directly.
    Scalar(ScalarKind),
    /// A transparent pass-through shape (reference, box, shared pointer, slice).
    Wrapper(Box<TypeRef>),
    /// A sequence of values.
    List(Box<TypeRef>),
    /// A dictionary with scalar keys.
    Dict(ScalarKind, Box<TypeRef>),
    /// Another record of the registry, by index.
    Composite(usize),
    /// An enumeration of the registry, by index.
    Enum(usize),
    /// A property map of the registry, by index.
    PropMap(usize),
}

/// How a record is laid out on the wire.
#[derive(PartialEq, Eq, Structural, Clone, Copy, Debug)]
pub enum RecordStyle {
    /// One structure: always framed in parentheses.
    Struct,
    /// A list of call arguments: framed only when it has more than one field.
    Args,
}

#[derive(Debug)]
pub struct FieldDescriptor {
    pub name: Option<String>,
    pub ty: TypeRef,
}

#[derive(Debug)]
pub struct RecordSchema {
    pub name: String,
    pub style: RecordStyle,
    pub fields: Vec<FieldDescriptor>,
}

#[derive(Debug)]
pub struct EnumVariant {
    pub tag: String,
    pub discriminant: u64,
}

#[derive(Debug)]
pub struct EnumSchema {
    pub name: String,
    pub backing: ScalarKind,
    pub variants: Vec<EnumVariant>,
}

#[derive(Debug)]
pub struct PropMapField {
    pub name: String,
    pub wire_key: String,
    pub kind: ScalarKind,
}

#[derive(Debug)]
pub struct PropMapSchema {
    pub name: String,
    pub fields: Vec<PropMapField>,
}

/// All the records, enumerations and property maps of one schema. A record may
/// refer only to records declared before it.
#[derive(Debug)]
pub struct Schema {
    pub records: Vec<RecordSchema>,
    pub enums: Vec<EnumSchema>,
    pub prop_maps: Vec<PropMapSchema>,
}

/// Why a schema is refused.
#[derive(PartialEq, Eq, Structural, Clone, Copy, Debug)]
pub enum SchemaError {
    /// A record without fields.
    EmptyRecord(usize),
    /// A record that mixes named and positional fields.
    MixedFieldNames(usize),
    /// Two fields of one record with the same name.
    DuplicateFieldName(usize),
    /// A field type that refers to something not declared before it, or keys a
    /// dictionary by an unorderable kind.
    BadFieldType(usize),
    /// An enumeration not backed by an integer kind.
    BadEnumBacking(usize),
    /// Two variants of an enumeration with one discriminant.
    DuplicateDiscriminant(usize),
    /// A discriminant that its backing kind cannot hold.
    DiscriminantOutOfRange(usize),
    /// Two fields of a property map with one wire key.
    DuplicateWireKey(usize),
}

impl EnumSchema {
    pub open spec fn wf(&self) -> bool {
        &&& is_integer_kind(self.backing)
        &&& forall|v: int| 0 <= v < self.variants@.len()
            ==> #[trigger] self.variants@[v].discriminant as nat <= kind_max(self.backing)
        &&& forall|a: int, b: int|
            0 <= a < self.variants@.len() && 0 <= b < self.variants@.len() && a != b
                ==> #[trigger] self.variants@[a].discriminant != #[trigger] self.variants@[b].discriminant
    }
}

impl PropMapSchema {
    pub open spec fn wf(&self) -> bool {
        forall|a: int, b: int|
            0 <= a < self.fields@.len() && 0 <= b < self.fields@.len() && a != b
                ==> #[trigger] self.fields@[a].wire_key@ != #[trigger] self.fields@[b].wire_key@
    }
}

impl Schema {
    /// `t` refers only to records below `bound` and to declared enumerations and
    /// property maps, and keys every dictionary by an orderable kind.
    pub open spec fn type_wf(&self, t: TypeRef, bound: nat) -> bool
        decreases t,
    {
        match t {
            TypeRef::Scalar(_) => true,
            TypeRef::Wrapper(b) => self.type_wf(*b, bound),
            TypeRef::List(b) => self.type_wf(*b, bound),
            TypeRef::Dict(k, b) => is_key_kind(k) && self.type_wf(*b, bound),
            TypeRef::Composite(j) => j < bound,
            TypeRef::Enum(j) => j < self.enums@.len(),
            TypeRef::PropMap(j) => j < self.prop_maps@.len(),
        }
    }

    pub open spec fn record_wf(&self, i: int) -> bool {
        let fs = self.records@[i].fields@;
        &&& fs.len() > 0
        &&& forall|k: int| 0 <= k < fs.len() ==> self.type_wf(#[trigger] fs[k].ty, i as nat)
        &&& forall|k: int| 0 <= k < fs.len() ==> (#[trigger] fs[k].name is Some) == (fs[0].name is Some)
        &&& forall|a: int, b: int|
            0 <= a < fs.len() && 0 <= b < fs.len() && a != b && fs[a].name is Some
                ==> #[trigger] fs[a].name->Some_0@ != #[trigger] fs[b].name->Some_0@
    }

    /// The schema's invariant: what `check` accepts.
    pub open spec fn wf(&self) -> bool {
        &&& forall|i: int| 0 <= i < self.records@.len() ==> #[trigger] self.record_wf(i)
        &&& forall|e: int| 0 <= e < self.enums@.len() ==> (#[trigger] self.enums@[e]).wf()
        &&& forall|p: int| 0 <= p < self.prop_maps@.len() ==> (#[trigger] self.prop_maps@[p]).wf()
    }
}

impl EnumSchema {
    /// Checks the backing kind, the range of each discriminant, and that no two
    /// variants share one.
    pub fn check(&self, e: usize) -> (r: Result<(), SchemaError>)
        ensures
            r is Ok <==> self.wf(),
            r matches Err(err) ==> (err == SchemaError::BadEnumBacking(e) && !is_integer_kind(self.backing))
                || (err == SchemaError::DiscriminantOutOfRange(e) && exists|v: int|
                    0 <= v < self.variants@.len()
                        && #[trigger] self.variants@[v].discriminant as nat > kind_max(self.backing))
                || (err == SchemaError::DuplicateDiscriminant(e) && exists|a: int, b: int|
                    0 <= a < b < self.variants@.len()
                        && #[trigger] self.variants@[a].discriminant == #[trigger] self.variants@[b].discriminant),
    {
        if !self.backing.is_integer() {
            return Err(SchemaError::BadEnumBacking(e));
        }
        let max = self.backing.max_value();
        let n = self.variants.len();
        let mut a: usize = 0;
        while a < n
            invariant
                n == self.variants@.len(),
                max as nat == kind_max(self.backing),
                a <= n,
                forall|v: int| 0 <= v < a ==> #[trigger] self.variants@[v].discriminant as nat <= kind_max(self.backing),
                forall|x: int, y: int| 0 <= x < a && 0 <= y < n && x != y
                    ==> #[trigger] self.variants@[x].discriminant != #[trigger] self.variants@[y].discriminant,
            decreases n - a,
        {
            if self.variants[a].discriminant > max {
                return Err(SchemaError::DiscriminantOutOfRange(e));
            }
            let mut b: usize = a + 1;
            while b < n
                invariant
                    n == self.variants@.len(),
                    a < n,
                    a < b <= n,
                    forall|y: int| a < y < b ==> self.variants@[a as int].discriminant != #[trigger] self.variants@[y].discriminant,
                decreases n - b,
            {
                if self.variants[a].discriminant == self.variants[b].discriminant {
                    return Err(SchemaError::DuplicateDiscriminant(e));
                }
                b = b + 1;
            }
            a = a + 1;
        }
        Ok(())
    }
}

impl PropMapSchema {
    /// Checks that no two fields share one wire key.
    pub fn check(&self, p: usize) -> (r: Result<(), SchemaError>)
        ensures
            r is Ok <==> self.wf(),
            r matches Err(err) ==> err == SchemaError::DuplicateWireKey(p),
    {
        let n = self.fields.len();
        let mut a: usize = 0;
        while a < n
            invariant
                n == self.fields@.len(),
                a <= n,
                forall|x: int, y: int| 0 <= x < a && 0 <= y < n && x != y
                    ==> #[trigger] self.fields@[x].wire_key@ != #[trigger] self.fields@[y].wire_key@,
            decreases n - a,
        {
            let mut b: usize = a + 1;
            while b < n
                invariant
                    n == self.fields@.len(),
                    a < n,
                    a < b <= n,
                    forall|y: int| a < y < b ==> self.fields@[a as int].wire_key@ != #[trigger] self.fields@[y].wire_key@,
                decreases n - b,
            {
                if self.fields[a].wire_key == self.fields[b].wire_key {
                    return Err(SchemaError::DuplicateWireKey(p));
                }
                b = b + 1;
            }
            a = a + 1;
        }
        Ok(())
    }
}

impl Schema {
    /// Whether `t` is well formed in a record that may refer to records below `bound`.
    pub fn check_type(&self, t: &TypeRef, bound: usize) -> (r: bool)
        ensures
            r == self.type_wf(*t, bound as nat),
        decreases t,
    {
        match t {
            TypeRef::Scalar(_) => true,
            TypeRef::Wrapper(b) => self.check_type(b, bound),
            TypeRef::List(b) => self.check_type(b, bound),
            TypeRef::Dict(k, b) => k.is_key() && self.check_type(b, bound),
            TypeRef::Composite(j) => *j < bound,
            TypeRef::Enum(j) => *j < self.enums.len(),
            TypeRef::PropMap(j) => *j < self.prop_maps.len(),
        }
    }

    fn check_record(&self, i: usize) -> (r: Result<(), SchemaError>)
        requires
            i < self.records@.len(),
        ensures
            r is Ok <==> self.record_wf(i as int),
            r matches Err(err) ==> err == SchemaError::EmptyRecord(i) || err == SchemaError::BadFieldType(i)
                || err == SchemaError::MixedFieldNames(i) || err == SchemaError::DuplicateFieldName(i),
    {
        let fs = &self.records[i].fields;
        let n = fs.len();
        if n == 0 {
            return Err(SchemaError::EmptyRecord(i));
        }
        let named = fs[0].name.is_some();
        let mut k: usize = 0;
        while k < n
            invariant
                i < self.records@.len(),
                fs == &self.records@[i as int].fields,
                n == fs@.len(),
                n > 0,
                named == (fs@[0].name is Some),
                k <= n,
                forall|x: int| 0 <= x < k ==> self.type_wf(#[trigger] fs@[x].ty, i as nat),
                forall|x: int| 0 <= x < k ==> (#[trigger] fs@[x].name is Some) == named,
            decreases n - k,
        {
            if !self.check_type(&fs[k].ty, i) {
                return Err(SchemaError::BadFieldType(i));
            }
            if fs[k].name.is_some() != named {
                return Err(SchemaError::MixedFieldNames(i));
            }
            k = k + 1;
        }
        let mut a: usize = 0;
        while a < n
            invariant
                i < self.records@.len(),
                fs == &self.records@[i as int].fields,
                n == fs@.len(),
                a <= n,
                forall|x: int| 0 <= x < n ==> (#[trigger] fs@[x].name is Some) == named,
                forall|x: int, y: int| 0 <= x < a && 0 <= y < n && x != y && fs@[x].name is Some
                    ==> #[trigger] fs@[x].name->Some_0@ != #[trigger] fs@[y].name->Some_0@,
            decreases n - a,
        {
            let mut b: usize = 0;
            while b < n
                invariant
                    i < self.records@.len(),
                    fs == &self.records@[i as int].fields,
                    n == fs@.len(),
                    a < n,
                    b <= n,
                    forall|x: int| 0 <= x < n ==> (#[trigger] fs@[x].name is Some) == named,
                    forall|y: int| 0 <= y < b && y != a && fs@[a as int].name is Some
                        ==> fs@[a as int].name->Some_0@ != #[trigger] fs@[y].name->Some_0@,
                decreases n - b,
            {
                if b != a {
                    if let Some(x) = &fs[a].name {
                        if let Some(y) = &fs[b].name {
                            if *x == *y {
                                assert(fs@[a as int].name->Some_0@ == fs@[b as int].name->Some_0@);
                                return Err(SchemaError::DuplicateFieldName(i));
                            }
                        }
                    }
                }
                b = b + 1;
            }
            a = a + 1;
        }
        Ok(())
    }

    /// Accepts exactly the well-formed schemas; otherwise names the first item at fault.
    pub fn check(&self) -> (r: Result<(), SchemaError>)
        ensures
            r is Ok <==> self.wf(),
    {
        let mut i: usize = 0;
        while i < self.records.len()
            invariant
                i <= self.records@.len(),
                forall|x: int| 0 <= x < i ==> #[trigger] self.record_wf(x),
            decreases self.records@.len() - i,
        {
            let r = self.check_record(i);
            if r.is_err() {
                return r;
            }
            i = i + 1;
        }
        let mut e: usize = 0;
        while e < self.enums.len()
            invariant
                e <= self.enums@.len(),
                forall|x: int| 0 <= x < self.records@.len() ==> #[trigger] self.record_wf(x),
                forall|x: int| 0 <= x < e ==> (#[trigger] self.enums@[x]).wf(),
            decreases self.enums@.len() - e,
        {
            let r = self.enums[e].check(e);
            if r.is_err() {
                return r;
            }
            e = e + 1;
        }
        let mut p: usize = 0;
        while p < self.prop_maps.len()
            invariant
                p <= self.prop_maps@.len(),
                forall|x: int| 0 <= x < self.records@.len() ==> #[trigger] self.record_wf(x),
                forall|x: int| 0 <= x < self.enums@.len() ==> (#[trigger] self.enums@[x]).wf(),
                forall|x: int| 0 <= x < p ==> (#[trigger] self.prop_maps@[x]).wf(),
            decreases self.prop_maps@.len() - p,
        {
            let r = self.prop_maps[p].check(p);
            if r.is_err() {
                return r;
            }
            p = p + 1;
        }
        Ok(())
    }
}

} // verus!
