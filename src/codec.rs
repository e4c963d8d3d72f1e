//! Values of schema types, and their conversion to and from wire items: the tuple
//! projection of a record, and pack and unpack against a message cursor.
use vstd::prelude::*;
use crate::wire::{ScalarKind, Scalar, ScalarV, WireValue, WireV, kind_of, scalar_uint, uint_scalar,
    lemma_uint_scalar, kind_max};
use crate::schema::{Schema, TypeRef, EnumVariant, PropMapSchema};

verus! {

/// A value of some schema type. A wrapper type's value is its inner value.
#[derive(Debug)]
pub enum Value {
    Scalar(Scalar),
    List(Vec<Value>),
    Dict(Vec<(Scalar, Value)>),
    /// The fields of a record, by position.
    Record(Vec<Value>),
    /// The index of a variant of an enumeration.
    Enum(usize),
    /// One optional scalar per field of a property map.
    Props(Vec<Option<Scalar>>),
}

/// The mathematical value of a `Value`.
pub enum ValueV {
    Scalar(ScalarV),
    List(Seq<ValueV>),
    Dict(Seq<(ScalarV, ValueV)>),
    Record(Seq<ValueV>),
    Enum(nat),
    Props(Seq<Option<ScalarV>>),
}

pub open spec fn opt_view(o: Option<Scalar>) -> Option<ScalarV> {
    match o {
        Some(x) => Some(x@),
        None => None,
    }
}

pub open spec fn props_view(items: Seq<Option<Scalar>>) -> Seq<Option<ScalarV>> {
    Seq::new(items.len(), |k: int| opt_view(items[k]))
}

/// The mathematical value of dictionary entries.
pub open spec fn entries_view(es: Seq<(Scalar, WireValue)>) -> Seq<(ScalarV, WireV)> {
    Seq::new(es.len(), |k: int| (es[k].0@, es[k].1@))
}

impl View for Value {
    type V = ValueV;

    open spec fn view(&self) -> ValueV {
        value_view(*self)
    }
}

/// The mathematical value of `v`.
pub open spec fn value_view(v: Value) -> ValueV
    decreases v,
{
        match v {
            Value::Scalar(x) => ValueV::Scalar(x@),
            Value::List(items) => ValueV::List(Seq::new(items@.len(), |k: int|
                if 0 <= k < items@.len() { value_view(items@[k]) } else { ValueV::Enum(0) })),
            Value::Dict(items) => ValueV::Dict(Seq::new(items@.len(), |k: int|
                if 0 <= k < items@.len() {
                    (items@[k].0@, value_view(items@[k].1))
                } else {
                    (ScalarV::Bool(false), ValueV::Enum(0))
                })),
            Value::Record(items) => ValueV::Record(Seq::new(items@.len(), |k: int|
                if 0 <= k < items@.len() { value_view(items@[k]) } else { ValueV::Enum(0) })),
            Value::Enum(x) => ValueV::Enum(x as nat),
            Value::Props(items) => ValueV::Props(props_view(items@)),
        }
}

/// Why a wire item does not convert to a value.
#[derive(PartialEq, Eq, Structural, Clone, Copy, Debug)]
pub enum ConvError {
    /// The item's shape or kind differs from what the type asks for.
    Mismatch,
    /// An enumeration's scalar names no variant.
    UnknownDiscriminant(u64),
}

/// The values of a sequence of results, or the first error among them.
pub open spec fn collect<A>(rs: Seq<Result<A, ConvError>>) -> Result<Seq<A>, ConvError>
    decreases rs.len(),
{
    if rs.len() == 0 {
        Ok(Seq::empty())
    } else {
        match rs[0] {
            Err(e) => Err(e),
            Ok(a) => match collect(rs.drop_first()) {
                Ok(t) => Ok(seq![a] + t),
                Err(e) => Err(e),
            },
        }
    }
}

pub proof fn lemma_collect_ok<A>(rs: Seq<Result<A, ConvError>>)
    requires
        forall|k: int| 0 <= k < rs.len() ==> #[trigger] rs[k] is Ok,
    ensures
        collect(rs) == Ok::<Seq<A>, ConvError>(Seq::new(rs.len(), |k: int| rs[k]->Ok_0)),
    decreases rs.len(),
{
    if rs.len() > 0 {
        let rest = rs.drop_first();
        assert forall|k: int| 0 <= k < rest.len() implies #[trigger] rest[k] is Ok by {
            assert(rs[k + 1] is Ok);
        }
        lemma_collect_ok(rest);
        assert(rs[0] is Ok);
        assert(seq![rs[0]->Ok_0] + Seq::new(rest.len(), |k: int| rest[k]->Ok_0)
            =~= Seq::new(rs.len(), |k: int| rs[k]->Ok_0));
    } else {
        assert(Seq::new(rs.len(), |k: int| rs[k]->Ok_0) =~= Seq::<A>::empty());
    }
}

pub proof fn lemma_collect_err<A>(rs: Seq<Result<A, ConvError>>, i: int)
    requires
        0 <= i < rs.len(),
        rs[i] is Err,
        forall|k: int| 0 <= k < i ==> #[trigger] rs[k] is Ok,
    ensures
        collect(rs) == Err::<Seq<A>, ConvError>(rs[i]->Err_0),
    decreases rs.len(),
{
    if i > 0 {
        let rest = rs.drop_first();
        assert(rs[0] is Ok);
        assert forall|k: int| 0 <= k < i - 1 implies #[trigger] rest[k] is Ok by {
            assert(rs[k + 1] is Ok);
        }
        lemma_collect_err(rest, i - 1);
    }
}

/// The index of the first variant with discriminant `d`, searching from `start`.
pub open spec fn find_variant(vs: Seq<EnumVariant>, d: nat, start: nat) -> Option<nat>
    decreases vs.len() - start,
{
    if start >= vs.len() {
        None
    } else if vs[start as int].discriminant as nat == d {
        Some(start)
    } else {
        find_variant(vs, d, start + 1)
    }
}

/// The value stored under `key` in dictionary entries, searching from `start`:
/// the first entry with that key wins.
pub open spec fn dict_find(es: Seq<(ScalarV, WireV)>, key: Seq<char>, start: nat) -> Option<WireV>
    decreases es.len() - start,
{
    if start >= es.len() {
        None
    } else if es[start as int].0 == ScalarV::Str(key) {
        Some(es[start as int].1)
    } else {
        dict_find(es, key, start + 1)
    }
}

/// The scalar of kind `k` that a variant item carries, if it carries one.
pub open spec fn variant_scalar(w: Option<WireV>, k: ScalarKind) -> Option<ScalarV> {
    match w {
        Some(WireV::Variant(b)) => match *b {
            WireV::Scalar(x) => if kind_of(x) == k {
                Some(x)
            } else {
                None
            },
            _ => None,
        },
        _ => None,
    }
}

/// The dictionary entries for the first `n` fields of a property map: one per
/// present field, keyed by its wire key, holding a variant.
pub open spec fn prop_entries(p: PropMapSchema, items: Seq<Option<ScalarV>>, n: nat) -> Seq<(ScalarV, WireV)>
    decreases n,
{
    if n == 0 || n > items.len() || n > p.fields@.len() {
        Seq::empty()
    } else {
        let prev = prop_entries(p, items, (n - 1) as nat);
        match items[n - 1] {
            Some(x) => prev.push(
                (ScalarV::Str(p.fields@[n - 1].wire_key@), WireV::Variant(Box::new(WireV::Scalar(x)))),
            ),
            None => prev,
        }
    }
}

proof fn lemma_find_variant(vs: Seq<EnumVariant>, x: nat, start: nat)
    requires
        start <= x < vs.len(),
        forall|a: int, b: int| 0 <= a < vs.len() && 0 <= b < vs.len() && a != b
            ==> #[trigger] vs[a].discriminant != #[trigger] vs[b].discriminant,
    ensures
        find_variant(vs, vs[x as int].discriminant as nat, start) == Some(x),
    decreases vs.len() - start,
{
    if start < x {
        assert(vs[start as int].discriminant != vs[x as int].discriminant);
        lemma_find_variant(vs, x, start + 1);
    }
}

proof fn lemma_dict_find_push(es: Seq<(ScalarV, WireV)>, e: (ScalarV, WireV), key: Seq<char>, start: nat)
    requires
        start <= es.len(),
    ensures
        dict_find(es.push(e), key, start) == if dict_find(es, key, start) is Some {
            dict_find(es, key, start)
        } else if e.0 == ScalarV::Str(key) {
            Some(e.1)
        } else {
            None
        },
    decreases es.len() - start,
{
    if start < es.len() {
        assert(es.push(e)[start as int] == es[start as int]);
        lemma_dict_find_push(es, e, key, start + 1);
    } else {
        assert(es.push(e)[start as int] == e);
        assert(dict_find(es.push(e), key, start + 1) is None);
    }
}

/// No entry from `start` on has `key` exactly when the search finds nothing.
pub proof fn lemma_dict_find_none(es: Seq<(ScalarV, WireV)>, key: Seq<char>, start: nat)
    ensures
        dict_find(es, key, start) is None <==> forall|m: int| start <= m < es.len()
            ==> (#[trigger] es[m]).0 != ScalarV::Str(key),
    decreases es.len() - start,
{
    if start < es.len() {
        lemma_dict_find_none(es, key, start + 1);
    }
}

/// Skipping entries that do not hold `key` does not change what is found.
pub proof fn lemma_dict_find_skip(es: Seq<(ScalarV, WireV)>, key: Seq<char>, start: nat)
    requires
        start <= es.len(),
        forall|m: int| 0 <= m < start ==> (#[trigger] es[m]).0 != ScalarV::Str(key),
    ensures
        dict_find(es, key, 0) == dict_find(es, key, start),
    decreases start,
{
    if start > 0 {
        lemma_dict_find_skip(es, key, (start - 1) as nat);
        assert(es[start - 1].0 != ScalarV::Str(key));
    }
}

/// Field `k` of a property map is found in its entries exactly when it is present.
proof fn lemma_prop_entries_find(p: PropMapSchema, items: Seq<Option<ScalarV>>, n: nat, k: int)
    requires
        p.wf(),
        n <= items.len(),
        n <= p.fields@.len(),
        0 <= k < p.fields@.len(),
    ensures
        dict_find(prop_entries(p, items, n), p.fields@[k].wire_key@, 0) == if k < n && items[k] is Some {
            Some(WireV::Variant(Box::new(WireV::Scalar(items[k]->Some_0))))
        } else {
            None
        },
    decreases n,
{
    if n > 0 {
        lemma_prop_entries_find(p, items, (n - 1) as nat, k);
        let prev = prop_entries(p, items, (n - 1) as nat);
        match items[n - 1] {
            Some(x) => {
                let e = (ScalarV::Str(p.fields@[n - 1].wire_key@),
                    WireV::Variant(Box::new(WireV::Scalar(x))));
                lemma_dict_find_push(prev, e, p.fields@[k].wire_key@, 0);
                if k != n - 1 {
                    assert(p.fields@[k].wire_key@ != p.fields@[n - 1].wire_key@);
                }
            },
            None => {},
        }
    }
}

impl Schema {
    pub open spec fn field_ty(&self, i: nat, k: int) -> TypeRef {
        self.records@[i as int].fields@[k].ty
    }

    pub open spec fn field_count(&self, i: nat) -> nat {
        self.records@[i as int].fields@.len()
    }

    /// `v` is a value of type `t` in a record that may refer to records below `bound`.
    pub open spec fn has_type(&self, t: TypeRef, v: ValueV, bound: nat) -> bool
        decreases v, t,
    {
        match t {
            TypeRef::Scalar(k) => v matches ValueV::Scalar(x) && kind_of(x) == k,
            TypeRef::Wrapper(b) => self.has_type(*b, v, bound),
            TypeRef::List(b) => match v {
                ValueV::List(items) => forall|k: int| 0 <= k < items.len()
                    ==> self.has_type(*b, #[trigger] items[k], bound),
                _ => false,
            },
            TypeRef::Dict(kk, b) => match v {
                ValueV::Dict(items) => forall|k: int| 0 <= k < items.len()
                    ==> kind_of(#[trigger] items[k].0) == kk && self.has_type(*b, items[k].1, bound),
                _ => false,
            },
            TypeRef::Composite(j) => match v {
                ValueV::Record(items) => j < bound && j < self.records@.len()
                    && items.len() == self.field_count(j as nat)
                    && forall|k: int| 0 <= k < items.len()
                        ==> self.has_type(self.field_ty(j as nat, k), #[trigger] items[k], j as nat),
                _ => false,
            },
            TypeRef::Enum(j) => match v {
                ValueV::Enum(x) => j < self.enums@.len() && x < self.enums@[j as int].variants@.len(),
                _ => false,
            },
            TypeRef::PropMap(j) => match v {
                ValueV::Props(items) => j < self.prop_maps@.len()
                    && items.len() == self.prop_maps@[j as int].fields@.len()
                    && forall|k: int| 0 <= k < items.len() && (#[trigger] items[k]) is Some
                        ==> kind_of(items[k]->Some_0) == self.prop_maps@[j as int].fields@[k].kind,
                _ => false,
            },
        }
    }

    /// The fields of record `i` form a value of it.
    pub open spec fn record_has_type(&self, i: nat, items: Seq<ValueV>) -> bool {
        &&& i < self.records@.len()
        &&& items.len() == self.field_count(i)
        &&& forall|k: int| 0 <= k < items.len() ==> self.has_type(self.field_ty(i, k), #[trigger] items[k], i)
    }

    /// The wire item of a value `v` of type `t`: scalars and containers as they
    /// are, a record as a structure, an enumeration as its discriminant, a property
    /// map as a dictionary of its present fields.
    pub open spec fn wire_of(&self, t: TypeRef, v: ValueV, bound: nat) -> WireV
        decreases v, t,
    {
        match t {
            TypeRef::Wrapper(b) => self.wire_of(*b, v, bound),
            TypeRef::Enum(j) => match v {
                ValueV::Enum(x) => {
                    let e = self.enums@[j as int];
                    WireV::Scalar(uint_scalar(e.backing, e.variants@[x as int].discriminant as nat))
                },
                _ => WireV::Array(Seq::empty()),
            },
            TypeRef::PropMap(j) => match v {
                ValueV::Props(items) => WireV::Dict(
                    prop_entries(self.prop_maps@[j as int], items, items.len()),
                ),
                _ => WireV::Array(Seq::empty()),
            },
            _ => match v {
                ValueV::Scalar(x) => WireV::Scalar(x),
                ValueV::List(items) => match t {
                    TypeRef::List(b) => WireV::Array(Seq::new(items.len(), |k: int|
                        if 0 <= k < items.len() {
                            self.wire_of(*b, items[k], bound)
                        } else {
                            WireV::Array(Seq::empty())
                        })),
                    _ => WireV::Array(Seq::empty()),
                },
                ValueV::Dict(items) => match t {
                    TypeRef::Dict(_, b) => WireV::Dict(Seq::new(items.len(), |k: int|
                        if 0 <= k < items.len() {
                            (items[k].0, self.wire_of(*b, items[k].1, bound))
                        } else {
                            (ScalarV::Bool(false), WireV::Array(Seq::empty()))
                        })),
                    _ => WireV::Array(Seq::empty()),
                },
                ValueV::Record(items) => match t {
                    TypeRef::Composite(j) => WireV::Struct(Seq::new(items.len(), |k: int|
                        if 0 <= k < items.len() {
                            self.wire_of(self.field_ty(j as nat, k), items[k], j as nat)
                        } else {
                            WireV::Array(Seq::empty())
                        })),
                    _ => WireV::Array(Seq::empty()),
                },
                _ => WireV::Array(Seq::empty()),
            },
        }
    }

    /// The tuple projection of a value of record `i`: one wire item per field.
    pub open spec fn record_wire(&self, i: nat, items: Seq<ValueV>) -> Seq<WireV> {
        Seq::new(items.len(), |k: int| self.wire_of(self.field_ty(i, k), items[k], i))
    }

    /// The conversions of the elements of an array or the fields of a structure
    /// `w`, for a list or composite type `t`.
    pub open spec fn elem_values(&self, t: TypeRef, w: WireV, bound: nat) -> Seq<Result<ValueV, ConvError>>
        decreases w, t, 0nat,
    {
        match w {
            WireV::Array(ws) => match t {
                TypeRef::List(b) => Seq::new(ws.len(), |k: int|
                    if 0 <= k < ws.len() {
                        self.value_of(*b, ws[k], bound)
                    } else {
                        Err(ConvError::Mismatch)
                    }),
                _ => Seq::empty(),
            },
            WireV::Struct(ws) => match t {
                TypeRef::Composite(j) => Seq::new(ws.len(), |k: int|
                    if 0 <= k < ws.len() {
                        self.value_of(self.field_ty(j as nat, k), ws[k], j as nat)
                    } else {
                        Err(ConvError::Mismatch)
                    }),
                _ => Seq::empty(),
            },
            _ => Seq::empty(),
        }
    }

    /// The conversions of the entries of a dictionary `w`, for a dictionary type `t`.
    pub open spec fn entry_values(&self, t: TypeRef, w: WireV, bound: nat) -> Seq<Result<(ScalarV, ValueV), ConvError>>
        decreases w, t, 0nat,
    {
        match w {
            WireV::Dict(es) => match t {
                TypeRef::Dict(kk, b) => Seq::new(es.len(), |k: int|
                    if 0 <= k < es.len() {
                        if kind_of(es[k].0) != kk {
                            Err(ConvError::Mismatch)
                        } else {
                            match self.value_of(*b, es[k].1, bound) {
                                Ok(v) => Ok((es[k].0, v)),
                                Err(e) => Err(e),
                            }
                        }
                    } else {
                        Err(ConvError::Mismatch)
                    }),
                _ => Seq::empty(),
            },
            _ => Seq::empty(),
        }
    }

    /// The fields of a property map `j` that the dictionary entries `es` hold:
    /// each field is looked up by its wire key; a missing key, or a value of
    /// another kind, leaves it absent; keys of no field are ignored.
    pub open spec fn prop_values(&self, j: nat, es: Seq<(ScalarV, WireV)>) -> Seq<Option<ScalarV>> {
        let p = self.prop_maps@[j as int];
        Seq::new(p.fields@.len(), |k: int|
            variant_scalar(dict_find(es, p.fields@[k].wire_key@, 0), p.fields@[k].kind))
    }

    /// The value of type `t` that wire item `w` holds, or why it holds none. A
    /// sequence fails at its first failing element.
    pub open spec fn value_of(&self, t: TypeRef, w: WireV, bound: nat) -> Result<ValueV, ConvError>
        decreases w, t, 1nat,
    {
        match t {
            TypeRef::Wrapper(b) => self.value_of(*b, w, bound),
            TypeRef::Scalar(k) => match w {
                WireV::Scalar(x) => if kind_of(x) == k {
                    Ok(ValueV::Scalar(x))
                } else {
                    Err(ConvError::Mismatch)
                },
                _ => Err(ConvError::Mismatch),
            },
            TypeRef::List(b) => match w {
                WireV::Array(ws) => match collect(self.elem_values(t, w, bound)) {
                    Ok(vs) => Ok(ValueV::List(vs)),
                    Err(e) => Err(e),
                },
                _ => Err(ConvError::Mismatch),
            },
            TypeRef::Dict(kk, b) => match w {
                WireV::Dict(es) => match collect(self.entry_values(t, w, bound)) {
                    Ok(vs) => Ok(ValueV::Dict(vs)),
                    Err(e) => Err(e),
                },
                _ => Err(ConvError::Mismatch),
            },
            TypeRef::Composite(j) => match w {
                WireV::Struct(ws) => if j < bound && j < self.records@.len()
                    && ws.len() == self.field_count(j as nat) {
                    match collect(self.elem_values(t, w, bound)) {
                        Ok(vs) => Ok(ValueV::Record(vs)),
                        Err(e) => Err(e),
                    }
                } else {
                    Err(ConvError::Mismatch)
                },
                _ => Err(ConvError::Mismatch),
            },
            TypeRef::Enum(j) => match w {
                WireV::Scalar(x) => if j < self.enums@.len() && kind_of(x) == self.enums@[j as int].backing {
                    match scalar_uint(x) {
                        Some(d) => match find_variant(self.enums@[j as int].variants@, d, 0) {
                            Some(v) => Ok(ValueV::Enum(v)),
                            None => Err(ConvError::UnknownDiscriminant(d as u64)),
                        },
                        None => Err(ConvError::UnknownDiscriminant(0)),
                    }
                } else {
                    Err(ConvError::Mismatch)
                },
                _ => Err(ConvError::Mismatch),
            },
            TypeRef::PropMap(j) => match w {
                WireV::Dict(es) => if j < self.prop_maps@.len() {
                    Ok(ValueV::Props(self.prop_values(j as nat, es)))
                } else {
                    Err(ConvError::Mismatch)
                },
                _ => Err(ConvError::Mismatch),
            },
        }
    }

    /// The conversion of each wire item of a tuple to the field of record `i` at its position.
    pub open spec fn record_results(&self, i: nat, ws: Seq<WireV>) -> Seq<Result<ValueV, ConvError>> {
        Seq::new(ws.len(), |k: int| self.value_of(self.field_ty(i, k), ws[k], i))
    }

    /// The value of record `i` that a tuple of wire items holds.
    pub open spec fn record_value(&self, i: nat, ws: Seq<WireV>) -> Result<Seq<ValueV>, ConvError> {
        if ws.len() != self.field_count(i) {
            Err(ConvError::Mismatch)
        } else {
            collect(self.record_results(i, ws))
        }
    }
}

/// Round trip. For a well-formed schema, a value of a type converts to a wire item
/// and back to the same value.
pub proof fn lemma_round_trip(s: &Schema, t: TypeRef, v: ValueV, bound: nat)
    requires
        s.wf(),
        bound <= s.records@.len(),
        s.type_wf(t, bound),
        s.has_type(t, v, bound),
    ensures
        s.value_of(t, s.wire_of(t, v, bound), bound) == Ok::<ValueV, ConvError>(v),
    decreases v, t,
{
    match t {
        TypeRef::Scalar(k) => {
            let x = v->Scalar_0;
            assert(s.wire_of(t, v, bound) == WireV::Scalar(x));
            assert(kind_of(x) == k);
        },
        TypeRef::Wrapper(b) => {
            lemma_round_trip(s, *b, v, bound);
        },
        TypeRef::List(b) => {
            let items = v->List_0;
            assert(v == ValueV::List(items));
            let w = s.wire_of(t, v, bound);
            assert(w is Array);
            let ws = w->Array_0;
            assert(ws.len() == items.len());
            let rs = s.elem_values(t, w, bound);
            assert forall|k: int| 0 <= k < rs.len() implies #[trigger] rs[k] == Ok::<ValueV, ConvError>(items[k]) by {
                lemma_round_trip(s, *b, items[k], bound);
            }
            lemma_collect_ok(rs);
            assert(Seq::new(rs.len(), |k: int| rs[k]->Ok_0) =~= items);
        },
        TypeRef::Dict(kk, b) => {
            let items = v->Dict_0;
            let w = s.wire_of(t, v, bound);
            let es = w->Dict_0;
            let rs = s.entry_values(t, w, bound);
            assert forall|k: int| 0 <= k < rs.len() implies #[trigger] rs[k] == Ok::<(ScalarV, ValueV), ConvError>(items[k]) by {
                lemma_round_trip(s, *b, items[k].1, bound);
            }
            lemma_collect_ok(rs);
            assert(Seq::new(rs.len(), |k: int| rs[k]->Ok_0) =~= items);
        },
        TypeRef::Composite(j) => {
            let items = v->Record_0;
            assert(v == ValueV::Record(items));
            let w = s.wire_of(t, v, bound);
            assert(w is Struct);
            let ws = w->Struct_0;
            assert(ws.len() == items.len());
            assert(s.record_wf(j as int));
            let rs = s.elem_values(t, w, bound);
            assert forall|k: int| 0 <= k < rs.len() implies #[trigger] rs[k] == Ok::<ValueV, ConvError>(items[k]) by {
                assert(s.type_wf(s.records@[j as int].fields@[k].ty, j as nat));
                lemma_round_trip(s, s.field_ty(j as nat, k), items[k], j as nat);
            }
            lemma_collect_ok(rs);
            assert(Seq::new(rs.len(), |k: int| rs[k]->Ok_0) =~= items);
        },
        TypeRef::Enum(j) => {
            let x = v->Enum_0;
            let e = s.enums@[j as int];
            assert(e.wf());
            let d = e.variants@[x as int].discriminant;
            assert(d as nat <= kind_max(e.backing));
            lemma_uint_scalar(e.backing, d as nat);
            lemma_find_variant(e.variants@, x, 0);
        },
        TypeRef::PropMap(j) => {
            let items = v->Props_0;
            let p = s.prop_maps@[j as int];
            assert(p.wf());
            let es = prop_entries(p, items, items.len());
            let got = s.prop_values(j as nat, es);
            assert forall|k: int| 0 <= k < got.len() implies #[trigger] got[k] == items[k] by {
                lemma_prop_entries_find(p, items, items.len(), k);
            }
            assert(got =~= items);
        },
    }
}

/// Absent fields are omitted. Encoding a property map value writes no entry under
/// the wire key of an absent field; decoding entries that hold nothing under a
/// field's wire key leaves that field absent, and is no error.
pub proof fn lemma_prop_map_omission(s: &Schema, j: usize, items: Seq<Option<ScalarV>>,
    es: Seq<(ScalarV, WireV)>, k: int, bound: nat)
    requires
        s.wf(),
        j < s.prop_maps@.len(),
        items.len() == s.prop_maps@[j as int].fields@.len(),
        0 <= k < items.len(),
    ensures
        items[k] is None ==> forall|m: int|
            0 <= m < s.wire_of(TypeRef::PropMap(j), ValueV::Props(items), bound)->Dict_0.len()
            ==> (#[trigger] s.wire_of(TypeRef::PropMap(j), ValueV::Props(items), bound)->Dict_0[m]).0
                != ScalarV::Str(s.prop_maps@[j as int].fields@[k].wire_key@),
        (forall|m: int| 0 <= m < es.len()
            ==> (#[trigger] es[m]).0 != ScalarV::Str(s.prop_maps@[j as int].fields@[k].wire_key@))
            ==> (s.value_of(TypeRef::PropMap(j), WireV::Dict(es), bound) matches Ok(ValueV::Props(got))
                && got.len() == items.len() && got[k] is None),
{
    let p = s.prop_maps@[j as int];
    assert(p.wf());
    let key = p.fields@[k].wire_key@;
    let entries = prop_entries(p, items, items.len());
    assert(s.wire_of(TypeRef::PropMap(j), ValueV::Props(items), bound) == WireV::Dict(entries));
    lemma_prop_entries_find(p, items, items.len(), k);
    lemma_dict_find_none(entries, key, 0);
    lemma_dict_find_none(es, key, 0);
    assert(s.value_of(TypeRef::PropMap(j), WireV::Dict(es), bound)
        == Ok::<ValueV, ConvError>(ValueV::Props(s.prop_values(j as nat, es))));
}

/// Round trip of a record: its tuple projection converts back to the same fields.
pub proof fn lemma_record_round_trip(s: &Schema, i: nat, items: Seq<ValueV>)
    requires
        s.wf(),
        s.record_has_type(i, items),
    ensures
        s.record_value(i, s.record_wire(i, items)) == Ok::<Seq<ValueV>, ConvError>(items),
{
    assert(s.record_wf(i as int));
    let ws = s.record_wire(i, items);
    let rs = s.record_results(i, ws);
    assert forall|k: int| 0 <= k < rs.len() implies #[trigger] rs[k] == Ok::<ValueV, ConvError>(items[k]) by {
        assert(s.type_wf(s.records@[i as int].fields@[k].ty, i));
        lemma_round_trip(s, s.field_ty(i, k), items[k], i);
    }
    lemma_collect_ok(rs);
    assert(Seq::new(rs.len(), |k: int| rs[k]->Ok_0) =~= items);
}

} // verus!
verus! {

/// The view of a list, dictionary or record value, element by element.
pub proof fn lemma_value_view_seq(v: Value)
    ensures
        v is List ==> v@ is List && v@->List_0.len() == v->List_0@.len() && forall|k: int|
            0 <= k < v->List_0@.len() ==> v@->List_0[k] == (#[trigger] v->List_0@[k])@,
        v is Dict ==> v@ is Dict && v@->Dict_0.len() == v->Dict_0@.len() && forall|k: int|
            0 <= k < v->Dict_0@.len() ==> v@->Dict_0[k] == ((#[trigger] v->Dict_0@[k]).0@, v->Dict_0@[k].1@),
        v is Record ==> v@ is Record && v@->Record_0.len() == v->Record_0@.len() && forall|k: int|
            0 <= k < v->Record_0@.len() ==> v@->Record_0[k] == (#[trigger] v->Record_0@[k])@,
{
}

/// Converting an array, dictionary or structure item, element by element.
pub proof fn lemma_value_of_seq(s: &Schema, t: TypeRef, w: WireV, bound: nat)
    ensures
        (t is List && w is Array) ==> s.elem_values(t, w, bound).len() == w->Array_0.len() && forall|k: int|
            0 <= k < w->Array_0.len() ==> s.elem_values(t, w, bound)[k]
                == s.value_of(*t->List_0, #[trigger] w->Array_0[k], bound),
        (t is Composite && w is Struct) ==> s.elem_values(t, w, bound).len() == w->Struct_0.len() && forall|k: int|
            0 <= k < w->Struct_0.len() ==> s.elem_values(t, w, bound)[k]
                == s.value_of(s.field_ty(t->Composite_0 as nat, k), #[trigger] w->Struct_0[k], t->Composite_0 as nat),
        (t is Dict && w is Dict) ==> s.entry_values(t, w, bound).len() == w->Dict_0.len() && forall|k: int|
            0 <= k < w->Dict_0.len() ==> s.entry_values(t, w, bound)[k] == if kind_of((#[trigger] w->Dict_0[k]).0) != t->Dict_0 {
                Err(ConvError::Mismatch)
            } else {
                match s.value_of(*t->Dict_1, w->Dict_0[k].1, bound) {
                    Ok(v) => Ok((w->Dict_0[k].0, v)),
                    Err(e) => Err(e),
                }
            },
{
}

/// The view of an array, dictionary or structure item, element by element.
pub proof fn lemma_wire_view_seq(w: WireValue)
    ensures
        w is Array ==> w@ is Array && w@->Array_0.len() == w->Array_0@.len() && forall|k: int|
            0 <= k < w->Array_0@.len() ==> w@->Array_0[k] == (#[trigger] w->Array_0@[k])@,
        w is Dict ==> w@ is Dict && w@->Dict_0.len() == w->Dict_0@.len() && forall|k: int|
            0 <= k < w->Dict_0@.len() ==> w@->Dict_0[k] == ((#[trigger] w->Dict_0@[k]).0@, w->Dict_0@[k].1@),
        w is Struct ==> w@ is Struct && w@->Struct_0.len() == w->Struct_0@.len() && forall|k: int|
            0 <= k < w->Struct_0@.len() ==> w@->Struct_0[k] == (#[trigger] w->Struct_0@[k])@,
        w is Variant ==> w@ == WireV::Variant(Box::new((*w->Variant_0)@)),
{
}

/// The wire item of a list, dictionary or record value, element by element.
pub proof fn lemma_wire_of_seq(s: &Schema, t: TypeRef, v: ValueV, bound: nat)
    ensures
        (t is List && v is List) ==> s.wire_of(t, v, bound) is Array
            && s.wire_of(t, v, bound)->Array_0.len() == v->List_0.len() && forall|k: int|
            0 <= k < v->List_0.len() ==> s.wire_of(t, v, bound)->Array_0[k]
                == s.wire_of(*t->List_0, #[trigger] v->List_0[k], bound),
        (t is Dict && v is Dict) ==> s.wire_of(t, v, bound) is Dict
            && s.wire_of(t, v, bound)->Dict_0.len() == v->Dict_0.len() && forall|k: int|
            0 <= k < v->Dict_0.len() ==> s.wire_of(t, v, bound)->Dict_0[k]
                == ((#[trigger] v->Dict_0[k]).0, s.wire_of(*t->Dict_1, v->Dict_0[k].1, bound)),
        (t is Composite && v is Record) ==> s.wire_of(t, v, bound) is Struct
            && s.wire_of(t, v, bound)->Struct_0.len() == v->Record_0.len() && forall|k: int|
            0 <= k < v->Record_0.len() ==> s.wire_of(t, v, bound)->Struct_0[k]
                == s.wire_of(s.field_ty(t->Composite_0 as nat, k), #[trigger] v->Record_0[k], t->Composite_0 as nat),
{
}

} // verus!
verus! {

/// Typing of a list, an array of wire items, or a record, element by element.
pub proof fn lemma_has_type_seq(s: &Schema, t: TypeRef, v: ValueV, bound: nat)
    ensures
        (t is List && v is List) ==> (s.has_type(t, v, bound) <==> forall|k: int|
            0 <= k < v->List_0.len() ==> s.has_type(*t->List_0, #[trigger] v->List_0[k], bound)),
        (t is Dict && v is Dict) ==> (s.has_type(t, v, bound) <==> forall|k: int|
            0 <= k < v->Dict_0.len() ==> kind_of((#[trigger] v->Dict_0[k]).0) == t->Dict_0
                && s.has_type(*t->Dict_1, v->Dict_0[k].1, bound)),
        (t is Composite && v is Record) ==> (s.has_type(t, v, bound) <==> {
            let j = t->Composite_0;
            &&& j < bound
            &&& j < s.records@.len()
            &&& v->Record_0.len() == s.field_count(j as nat)
            &&& forall|k: int| 0 <= k < v->Record_0.len()
                ==> s.has_type(s.field_ty(j as nat, k), #[trigger] v->Record_0[k], j as nat)
        }),
{
}

} // verus!
