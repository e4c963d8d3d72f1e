//! Executable conversions between values and wire items, checked against the
//! specifications of the codec module.
use vstd::prelude::*;
use crate::wire::{Scalar, ScalarV, WireValue, WireV, kind_of};
use crate::schema::{Schema, TypeRef, RecordStyle};
use crate::codec::{Value, ValueV, ConvError, lemma_collect_ok, lemma_collect_err, prop_entries,
    dict_find, variant_scalar, opt_view, props_view, entries_view, lemma_dict_find_skip, lemma_value_view_seq,
    lemma_wire_view_seq, lemma_has_type_seq, lemma_wire_of_seq, lemma_value_of_seq};

verus! {

pub open spec fn values_view(vs: Seq<Value>) -> Seq<ValueV> {
    vs.map_values(|v: Value| v@)
}

pub open spec fn wires_view(ws: Seq<WireValue>) -> Seq<WireV> {
    ws.map_values(|w: WireValue| w@)
}

proof fn facts(s: &Schema, t: TypeRef, v: Value, bound: nat)
    ensures
        (t is List && v is List) ==> (s.has_type(t, v@, bound) <==> forall|k: int|
            0 <= k < v->List_0@.len() ==> s.has_type(*t->List_0, #[trigger] v->List_0@[k]@, bound)),
        (t is Dict && v is Dict) ==> (s.has_type(t, v@, bound) <==> forall|k: int|
            0 <= k < v->Dict_0@.len() ==> kind_of((#[trigger] v->Dict_0@[k]).0@) == t->Dict_0
                && s.has_type(*t->Dict_1, v->Dict_0@[k].1@, bound)),
        (t is Composite && v is Record) ==> (s.has_type(t, v@, bound) <==> {
            let j = t->Composite_0;
            &&& j < bound
            &&& j < s.records@.len()
            &&& v->Record_0@.len() == s.field_count(j as nat)
            &&& forall|k: int| 0 <= k < v->Record_0@.len()
                ==> s.has_type(s.field_ty(j as nat, k), #[trigger] v->Record_0@[k]@, j as nat)
        }),
        (t is List && v is List) ==> s.wire_of(t, v@, bound) is Array
            && s.wire_of(t, v@, bound)->Array_0.len() == v->List_0@.len() && forall|k: int|
            0 <= k < v->List_0@.len() ==> s.wire_of(t, v@, bound)->Array_0[k]
                == s.wire_of(*t->List_0, (#[trigger] v->List_0@[k])@, bound),
        (t is Dict && v is Dict) ==> s.wire_of(t, v@, bound) is Dict
            && s.wire_of(t, v@, bound)->Dict_0.len() == v->Dict_0@.len() && forall|k: int|
            0 <= k < v->Dict_0@.len() ==> s.wire_of(t, v@, bound)->Dict_0[k]
                == ((#[trigger] v->Dict_0@[k]).0@, s.wire_of(*t->Dict_1, v->Dict_0@[k].1@, bound)),
        (t is Composite && v is Record) ==> s.wire_of(t, v@, bound) is Struct
            && s.wire_of(t, v@, bound)->Struct_0.len() == v->Record_0@.len() && forall|k: int|
            0 <= k < v->Record_0@.len() ==> s.wire_of(t, v@, bound)->Struct_0[k]
                == s.wire_of(s.field_ty(t->Composite_0 as nat, k), (#[trigger] v->Record_0@[k])@,
                t->Composite_0 as nat),
{
    lemma_value_view_seq(v);
    lemma_has_type_seq(s, t, v@, bound);
    lemma_wire_of_seq(s, t, v@, bound);
    if v is List {
        assert forall|k: int| 0 <= k < v->List_0@.len() implies v@->List_0[k] == (#[trigger] v->List_0@[k])@ by {}
    }
    if v is Dict {
        assert forall|k: int| 0 <= k < v->Dict_0@.len() implies v@->Dict_0[k]
            == ((#[trigger] v->Dict_0@[k]).0@, v->Dict_0@[k].1@) by {}
    }
    if v is Record {
        assert forall|k: int| 0 <= k < v->Record_0@.len() implies v@->Record_0[k]
            == (#[trigger] v->Record_0@[k])@ by {}
    }
}

proof fn facts_from(s: &Schema, t: TypeRef, w: WireValue, bound: nat)
    ensures
        (t is List && w is Array) ==> s.elem_values(t, w@, bound).len() == w->Array_0@.len() && forall|k: int|
            0 <= k < w->Array_0@.len() ==> s.elem_values(t, w@, bound)[k]
                == s.value_of(*t->List_0, (#[trigger] w->Array_0@[k])@, bound),
        (t is Composite && w is Struct) ==> s.elem_values(t, w@, bound).len() == w->Struct_0@.len() && forall|k: int|
            0 <= k < w->Struct_0@.len() ==> s.elem_values(t, w@, bound)[k]
                == s.value_of(s.field_ty(t->Composite_0 as nat, k), (#[trigger] w->Struct_0@[k])@, t->Composite_0 as nat),
        (t is Dict && w is Dict) ==> s.entry_values(t, w@, bound).len() == w->Dict_0@.len() && forall|k: int|
            0 <= k < w->Dict_0@.len() ==> s.entry_values(t, w@, bound)[k] == if kind_of((#[trigger] w->Dict_0@[k]).0@) != t->Dict_0 {
                Err(ConvError::Mismatch)
            } else {
                match s.value_of(*t->Dict_1, w->Dict_0@[k].1@, bound) {
                    Ok(v) => Ok((w->Dict_0@[k].0@, v)),
                    Err(e) => Err(e),
                }
            },
        w is Dict ==> w@ == WireV::Dict(entries_view(w->Dict_0@)),
{
    lemma_wire_view_seq(w);
    lemma_value_of_seq(s, t, w@, bound);
    if w is Dict {
        assert(w@->Dict_0 =~= entries_view(w->Dict_0@));
    }
}

impl Schema {
    /// The wire item of `v` as a value of type `t`, or `Mismatch` when `v` is not
    /// a value of that type.
    pub fn value_to_wire(&self, t: &TypeRef, v: &Value, bound: usize) -> (r: Result<WireValue, ConvError>)
        requires
            self.wf(),
            bound <= self.records@.len(),
        ensures
            r is Ok <==> self.has_type(*t, v@, bound as nat),
            r matches Ok(w) ==> w@ == self.wire_of(*t, v@, bound as nat),
            r matches Err(e) ==> e == ConvError::Mismatch,
        decreases v, t,
    {
        proof {
            lemma_value_view_seq(*v);
            lemma_has_type_seq(self, *t, v@, bound as nat);
            lemma_wire_of_seq(self, *t, v@, bound as nat);
        }
        match t {
            TypeRef::Wrapper(b) => self.value_to_wire(b, v, bound),
            TypeRef::Scalar(k) => match v {
                Value::Scalar(x) => {
                    if x.kind() == *k {
                        Ok(WireValue::Scalar(x.duplicate()))
                    } else {
                        Err(ConvError::Mismatch)
                    }
                },
                _ => Err(ConvError::Mismatch),
            },
            TypeRef::List(b) => match v {
                Value::List(items) => {
                    let mut out: Vec<WireValue> = Vec::new();
                    let mut k: usize = 0;
                    while k < items.len()
                        invariant
                            self.wf(),
                            bound <= self.records@.len(),
                            *v == Value::List(*items),
                            *t == TypeRef::List(*b),
                            k <= items@.len(),
                            out@.len() == k,
                            forall|m: int| 0 <= m < k ==> self.has_type(**b, #[trigger] items@[m]@, bound as nat),
                            forall|m: int| 0 <= m < k ==> (#[trigger] out@[m])@ == self.wire_of(**b, items@[m]@, bound as nat),
                        decreases items@.len() - k,
                    {
                        proof {
                            assert(decreases_to!(*v => (*v)->List_0));
                            assert(decreases_to!((*v)->List_0 => (*v)->List_0@));
                            assert(decreases_to!(items@ => items@[k as int]));
                        }
                        match self.value_to_wire(b, &items[k], bound) {
                            Ok(w) => out.push(w),
                            Err(e) => {
                                assert(v@->List_0[k as int] == items@[k as int]@);

                                proof {
                                    facts(self, *t, *v, bound as nat);
                                }
                                return Err(e);
                            },
                        }
                        k = k + 1;
                    }
                    let r = WireValue::Array(out);
                    proof {
                        lemma_wire_view_seq(r);
                        facts(self, *t, *v, bound as nat);
                    }
                    assert(r@->Array_0 =~= self.wire_of(*t, v@, bound as nat)->Array_0);
                    Ok(r)
                },
                _ => Err(ConvError::Mismatch),
            },
            TypeRef::Dict(kk, b) => match v {
                Value::Dict(items) => {
                    let mut out: Vec<(Scalar, WireValue)> = Vec::new();
                    let mut k: usize = 0;
                    while k < items.len()
                        invariant
                            self.wf(),
                            bound <= self.records@.len(),
                            *v == Value::Dict(*items),
                            *t == TypeRef::Dict(*kk, *b),
                            k <= items@.len(),
                            out@.len() == k,
                            forall|m: int| 0 <= m < k ==> kind_of((#[trigger] items@[m]).0@) == *kk
                                && self.has_type(**b, items@[m].1@, bound as nat),
                            forall|m: int| 0 <= m < k ==> (#[trigger] out@[m]).0@ == items@[m].0@
                                && out@[m].1@ == self.wire_of(**b, items@[m].1@, bound as nat),
                        decreases items@.len() - k,
                    {
                        proof {
                            assert(decreases_to!(*v => (*v)->Dict_0));
                            assert(decreases_to!((*v)->Dict_0 => (*v)->Dict_0@));
                            assert(decreases_to!(items@ => items@[k as int]));
                            assert(decreases_to!(items@[k as int] => items@[k as int].1));
                        }
                        if items[k].0.kind() != *kk {
                            assert(v@->Dict_0[k as int] == (items@[k as int].0@, items@[k as int].1@));
                            proof {
                                facts(self, *t, *v, bound as nat);
                            }
                            return Err(ConvError::Mismatch);
                        }
                        match self.value_to_wire(b, &items[k].1, bound) {
                            Ok(w) => out.push((items[k].0.duplicate(), w)),
                            Err(e) => {
                                assert(v@->Dict_0[k as int] == (items@[k as int].0@, items@[k as int].1@));
                                proof {
                                    facts(self, *t, *v, bound as nat);
                                }
                                return Err(e);
                            },
                        }
                        k = k + 1;
                    }
                    let r = WireValue::Dict(out);
                    proof {
                        lemma_wire_view_seq(r);
                        facts(self, *t, *v, bound as nat);
                    }
                    assert(r@->Dict_0 =~= self.wire_of(*t, v@, bound as nat)->Dict_0);
                    Ok(r)
                },
                _ => Err(ConvError::Mismatch),
            },
            TypeRef::Composite(j) => match v {
                Value::Record(items) => {
                    if !(*j < bound && items.len() == self.records[*j].fields.len()) {
                        return Err(ConvError::Mismatch);
                    }
                    let mut out: Vec<WireValue> = Vec::new();
                    let mut k: usize = 0;
                    while k < items.len()
                        invariant
                            self.wf(),
                            bound <= self.records@.len(),
                            *j < bound,
                            *v == Value::Record(*items),
                            *t == TypeRef::Composite(*j),
                            items@.len() == self.field_count(*j as nat),
                            k <= items@.len(),
                            out@.len() == k,
                            forall|m: int| 0 <= m < k ==> self.has_type(self.field_ty(*j as nat, m),
                                #[trigger] items@[m]@, *j as nat),
                            forall|m: int| 0 <= m < k ==> (#[trigger] out@[m])@
                                == self.wire_of(self.field_ty(*j as nat, m), items@[m]@, *j as nat),
                        decreases items@.len() - k,
                    {
                        proof {
                            assert(decreases_to!(*v => (*v)->Record_0));
                            assert(decreases_to!((*v)->Record_0 => (*v)->Record_0@));
                            assert(decreases_to!(items@ => items@[k as int]));
                        }
                        match self.value_to_wire(&self.records[*j].fields[k].ty, &items[k], *j) {
                            Ok(w) => out.push(w),
                            Err(e) => {
                                assert(v@->Record_0[k as int] == items@[k as int]@);
                                proof {
                                    facts(self, *t, *v, bound as nat);
                                }
                                return Err(e);
                            },
                        }
                        k = k + 1;
                    }
                    let r = WireValue::Struct(out);
                    proof {
                        lemma_wire_view_seq(r);
                        facts(self, *t, *v, bound as nat);
                    }
                    assert(r@->Struct_0 =~= self.wire_of(*t, v@, bound as nat)->Struct_0);
                    Ok(r)
                },
                _ => Err(ConvError::Mismatch),
            },
            TypeRef::Enum(j) => match v {
                Value::Enum(x) => {
                    if *j < self.enums.len() && *x < self.enums[*j].variants.len() {
                        let e = &self.enums[*j];
                        assert(e.wf());
                        Ok(WireValue::Scalar(Scalar::from_uint(e.backing, e.variants[*x].discriminant)))
                    } else {
                        Err(ConvError::Mismatch)
                    }
                },
                _ => Err(ConvError::Mismatch),
            },
            TypeRef::PropMap(j) => match v {
                Value::Props(items) => {
                    if !(*j < self.prop_maps.len() && items.len() == self.prop_maps[*j].fields.len()) {
                        return Err(ConvError::Mismatch);
                    }
                    let p = &self.prop_maps[*j];
                    let ghost iv = props_view(items@);
                    assert(v@ == ValueV::Props(iv));
                    let mut out: Vec<(Scalar, WireValue)> = Vec::new();
                    let mut k: usize = 0;
                    while k < items.len()
                        invariant
                            *t == TypeRef::PropMap(*j),
                            *j < self.prop_maps@.len(),
                            v@ == ValueV::Props(iv),
                            p == &self.prop_maps@[*j as int],
                            items@.len() == p.fields@.len(),
                            iv == props_view(items@),
                            k <= items@.len(),
                            forall|m: int| 0 <= m < k && (#[trigger] iv[m]) is Some
                                ==> kind_of(iv[m]->Some_0) == p.fields@[m].kind,
                            entries_view(out@) == prop_entries(*p, iv, k as nat),
                        decreases items@.len() - k,
                    {
                        let ghost prev = out@;
                        match &items[k] {
                            Some(x) => {
                                assert(iv[k as int] == Some(x@));
                                if x.kind() != p.fields[k].kind {
                                    return Err(ConvError::Mismatch);
                                }
                                let key = Scalar::Str(p.fields[k].wire_key.clone());
                                let item = WireValue::Variant(Box::new(WireValue::Scalar(x.duplicate())));
                                proof {
                                    lemma_wire_view_seq(item);
                                }
                                assert(item@ == WireV::Variant(Box::new(WireV::Scalar(x@))));
                                assert(key@ == ScalarV::Str(p.fields@[k as int].wire_key@));
                                out.push((key, item));
                                assert(entries_view(out@) =~= entries_view(prev).push(
                                    (ScalarV::Str(p.fields@[k as int].wire_key@),
                                    WireV::Variant(Box::new(WireV::Scalar(x@))))));
                            },
                            None => {
                                assert(iv[k as int] is None);
                            },
                        }
                        k = k + 1;
                    }
                    let r = WireValue::Dict(out);
                    proof {
                        lemma_wire_view_seq(r);
                    }
                    assert(r@->Dict_0 =~= entries_view(out@));
                    Ok(r)
                },
                _ => Err(ConvError::Mismatch),
            },
        }
    }
}

impl Schema {
    /// The scalar of kind `kind` carried in a variant under `key` among the
    /// entries `es`, if the first entry under `key` carries one.
    fn lookup_prop(es: &Vec<(Scalar, WireValue)>, key: &String, kind: crate::wire::ScalarKind) -> (r: Option<Scalar>)
        ensures
            opt_view(r) == variant_scalar(dict_find(entries_view(es@), key@, 0), kind),
    {
        let ghost ev = entries_view(es@);
        let mut m: usize = 0;
        while m < es.len()
            invariant
                ev == entries_view(es@),
                m <= es@.len(),
                forall|x: int| 0 <= x < m ==> (#[trigger] ev[x]).0 != ScalarV::Str(key@),
            decreases es@.len() - m,
        {
            let found = match &es[m].0 {
                Scalar::Str(name) => *name == *key,
                _ => false,
            };
            if found {
                proof {
                    lemma_dict_find_skip(ev, key@, m as nat);
                    lemma_wire_view_seq(es@[m as int].1);
                }
                assert(ev[m as int].0 == ScalarV::Str(key@));
                return match &es[m].1 {
                    WireValue::Variant(b) => match &**b {
                        WireValue::Scalar(x) => {
                            if x.kind() == kind {
                                Some(x.duplicate())
                            } else {
                                None
                            }
                        },
                        _ => None,
                    },
                    _ => None,
                };
            }
            proof {
                assert(ev[m as int].0 == es@[m as int].0@);
            }
            m = m + 1;
        }
        proof {
            lemma_dict_find_skip(ev, key@, m as nat);
        }
        None
    }

    /// The value of type `t` that the wire item `w` holds, or why it holds none.
    pub fn value_from_wire(&self, t: &TypeRef, w: &WireValue, bound: usize) -> (r: Result<Value, ConvError>)
        requires
            bound <= self.records@.len(),
        ensures
            r matches Ok(v) ==> self.value_of(*t, w@, bound as nat) == Ok::<ValueV, ConvError>(v@),
            r matches Err(e) ==> self.value_of(*t, w@, bound as nat) == Err::<ValueV, ConvError>(e),
        decreases w, t,
    {
        proof {
            facts_from(self, *t, *w, bound as nat);
        }
        match t {
            TypeRef::Wrapper(b) => self.value_from_wire(b, w, bound),
            TypeRef::Scalar(k) => match w {
                WireValue::Scalar(x) => {
                    if x.kind() == *k {
                        Ok(Value::Scalar(x.duplicate()))
                    } else {
                        Err(ConvError::Mismatch)
                    }
                },
                _ => Err(ConvError::Mismatch),
            },
            TypeRef::List(b) => match w {
                WireValue::Array(ws) => {
                    let ghost rs = self.elem_values(*t, w@, bound as nat);
                    let mut out: Vec<Value> = Vec::new();
                    let mut k: usize = 0;
                    while k < ws.len()
                        invariant
                            bound <= self.records@.len(),
                            *w == WireValue::Array(*ws),
                            *t == TypeRef::List(*b),
                            rs == self.elem_values(*t, w@, bound as nat),
                            rs.len() == ws@.len(),
                            forall|m: int| 0 <= m < ws@.len() ==> rs[m] == self.value_of(**b, (#[trigger] ws@[m])@, bound as nat),
                            k <= ws@.len(),
                            out@.len() == k,
                            forall|m: int| 0 <= m < k ==> rs[m] == Ok::<ValueV, ConvError>((#[trigger] out@[m])@),
                        decreases ws@.len() - k,
                    {
                        proof {
                            assert(decreases_to!(*w => (*w)->Array_0));
                            assert(decreases_to!((*w)->Array_0 => (*w)->Array_0@));
                            assert(decreases_to!(ws@ => ws@[k as int]));
                        }
                        match self.value_from_wire(b, &ws[k], bound) {
                            Ok(x) => out.push(x),
                            Err(e) => {
                                proof {
                                    assert forall|m: int| 0 <= m < k implies #[trigger] rs[m] is Ok by {
                                        assert(rs[m] == Ok::<ValueV, ConvError>(out@[m]@));
                                    }
                                    lemma_collect_err(rs, k as int);
                                }
                                return Err(e);
                            },
                        }
                        k = k + 1;
                    }
                    let r = Value::List(out);
                    proof {
                        assert forall|m: int| 0 <= m < rs.len() implies #[trigger] rs[m] is Ok by {
                            assert(rs[m] == Ok::<ValueV, ConvError>(out@[m]@));
                        }
                        lemma_collect_ok(rs);
                        lemma_value_view_seq(r);
                        assert(r@->List_0 =~= Seq::new(rs.len(), |m: int| rs[m]->Ok_0));
                    }
                    Ok(r)
                },
                _ => Err(ConvError::Mismatch),
            },
            TypeRef::Dict(kk, b) => match w {
                WireValue::Dict(es) => {
                    let ghost rs = self.entry_values(*t, w@, bound as nat);
                    let mut out: Vec<(Scalar, Value)> = Vec::new();
                    let mut k: usize = 0;
                    while k < es.len()
                        invariant
                            bound <= self.records@.len(),
                            *w == WireValue::Dict(*es),
                            *t == TypeRef::Dict(*kk, *b),
                            rs == self.entry_values(*t, w@, bound as nat),
                            rs.len() == es@.len(),
                            forall|m: int| 0 <= m < es@.len() ==> rs[m] == if kind_of((#[trigger] es@[m]).0@) != *kk {
                                Err(ConvError::Mismatch)
                            } else {
                                match self.value_of(**b, es@[m].1@, bound as nat) {
                                    Ok(v) => Ok((es@[m].0@, v)),
                                    Err(e) => Err(e),
                                }
                            },
                            k <= es@.len(),
                            out@.len() == k,
                            forall|m: int| 0 <= m < k ==> rs[m] == Ok::<(ScalarV, ValueV), ConvError>(
                                ((#[trigger] out@[m]).0@, out@[m].1@)),
                        decreases es@.len() - k,
                    {
                        proof {
                            assert(decreases_to!(*w => (*w)->Dict_0));
                            assert(decreases_to!((*w)->Dict_0 => (*w)->Dict_0@));
                            assert(decreases_to!(es@ => es@[k as int]));
                            assert(decreases_to!(es@[k as int] => es@[k as int].1));
                            assert forall|m: int| 0 <= m < k implies #[trigger] rs[m] is Ok by {
                                assert(rs[m] == Ok::<(ScalarV, ValueV), ConvError>((out@[m].0@, out@[m].1@)));
                            }
                        }
                        if es[k].0.kind() != *kk {
                            proof {
                                assert(rs[k as int] == Err::<(ScalarV, ValueV), ConvError>(ConvError::Mismatch));
                                lemma_collect_err(rs, k as int);
                            }
                            return Err(ConvError::Mismatch);
                        }
                        match self.value_from_wire(b, &es[k].1, bound) {
                            Ok(x) => out.push((es[k].0.duplicate(), x)),
                            Err(e) => {
                                proof {
                                    lemma_collect_err(rs, k as int);
                                }
                                return Err(e);
                            },
                        }
                        k = k + 1;
                    }
                    let r = Value::Dict(out);
                    proof {
                        assert forall|m: int| 0 <= m < rs.len() implies #[trigger] rs[m] is Ok by {
                            assert(rs[m] == Ok::<(ScalarV, ValueV), ConvError>((out@[m].0@, out@[m].1@)));
                        }
                        lemma_collect_ok(rs);
                        lemma_value_view_seq(r);
                        assert(r@->Dict_0 =~= Seq::new(rs.len(), |m: int| rs[m]->Ok_0));
                    }
                    Ok(r)
                },
                _ => Err(ConvError::Mismatch),
            },
            TypeRef::Composite(j) => match w {
                WireValue::Struct(ws) => {
                    if !(*j < bound && ws.len() == self.records[*j].fields.len()) {
                        return Err(ConvError::Mismatch);
                    }
                    let ghost rs = self.elem_values(*t, w@, bound as nat);
                    let mut out: Vec<Value> = Vec::new();
                    let mut k: usize = 0;
                    while k < ws.len()
                        invariant
                            bound <= self.records@.len(),
                            *j < bound,
                            *w == WireValue::Struct(*ws),
                            *t == TypeRef::Composite(*j),
                            rs == self.elem_values(*t, w@, bound as nat),
                            rs.len() == ws@.len(),
                            ws@.len() == self.field_count(*j as nat),
                            forall|m: int| 0 <= m < ws@.len() ==> rs[m]
                                == self.value_of(self.field_ty(*j as nat, m), (#[trigger] ws@[m])@, *j as nat),
                            k <= ws@.len(),
                            out@.len() == k,
                            forall|m: int| 0 <= m < k ==> rs[m] == Ok::<ValueV, ConvError>((#[trigger] out@[m])@),
                        decreases ws@.len() - k,
                    {
                        proof {
                            assert(decreases_to!(*w => (*w)->Struct_0));
                            assert(decreases_to!((*w)->Struct_0 => (*w)->Struct_0@));
                            assert(decreases_to!(ws@ => ws@[k as int]));
                        }
                        match self.value_from_wire(&self.records[*j].fields[k].ty, &ws[k], *j) {
                            Ok(x) => out.push(x),
                            Err(e) => {
                                proof {
                                    assert forall|m: int| 0 <= m < k implies #[trigger] rs[m] is Ok by {
                                        assert(rs[m] == Ok::<ValueV, ConvError>(out@[m]@));
                                    }
                                    lemma_collect_err(rs, k as int);
                                }
                                return Err(e);
                            },
                        }
                        k = k + 1;
                    }
                    let r = Value::Record(out);
                    proof {
                        assert forall|m: int| 0 <= m < rs.len() implies #[trigger] rs[m] is Ok by {
                            assert(rs[m] == Ok::<ValueV, ConvError>(out@[m]@));
                        }
                        lemma_collect_ok(rs);
                        lemma_value_view_seq(r);
                        assert(r@->Record_0 =~= Seq::new(rs.len(), |m: int| rs[m]->Ok_0));
                    }
                    Ok(r)
                },
                _ => Err(ConvError::Mismatch),
            },
            TypeRef::Enum(j) => match w {
                WireValue::Scalar(x) => {
                    if *j < self.enums.len() && x.kind() == self.enums[*j].backing {
                        match x.as_uint() {
                            Some(d) => match self.enums[*j].unpack(d) {
                                Ok(v) => Ok(Value::Enum(v)),
                                Err(_) => Err(ConvError::UnknownDiscriminant(d)),
                            },
                            None => Err(ConvError::UnknownDiscriminant(0)),
                        }
                    } else {
                        Err(ConvError::Mismatch)
                    }
                },
                _ => Err(ConvError::Mismatch),
            },
            TypeRef::PropMap(j) => match w {
                WireValue::Dict(es) => {
                    if *j >= self.prop_maps.len() {
                        return Err(ConvError::Mismatch);
                    }
                    let p = &self.prop_maps[*j];
                    let mut out: Vec<Option<Scalar>> = Vec::new();
                    let mut k: usize = 0;
                    while k < p.fields.len()
                        invariant
                            p == &self.prop_maps@[*j as int],
                            k <= p.fields@.len(),
                            out@.len() == k,
                            forall|m: int| 0 <= m < k ==> opt_view(#[trigger] out@[m])
                                == variant_scalar(dict_find(entries_view(es@), p.fields@[m].wire_key@, 0), p.fields@[m].kind),
                        decreases p.fields@.len() - k,
                    {
                        let x = Self::lookup_prop(es, &p.fields[k].wire_key, p.fields[k].kind);
                        out.push(x);
                        k = k + 1;
                    }
                    let r = Value::Props(out);
                    assert(props_view(out@) =~= self.prop_values(*j as nat, entries_view(es@)));
                    Ok(r)
                },
                _ => Err(ConvError::Mismatch),
            },
        }
    }
}

impl Schema {
    /// The tuple projection of a value of record `i`: one wire item per field, in
    /// declaration order. `Mismatch` when `fields` is not a value of the record.
    pub fn to_wire(&self, i: usize, fields: &Vec<Value>) -> (r: Result<Vec<WireValue>, ConvError>)
        requires
            self.wf(),
            i < self.records@.len(),
        ensures
            r is Ok <==> self.record_has_type(i as nat, values_view(fields@)),
            r matches Ok(ws) ==> wires_view(ws@) == self.record_wire(i as nat, values_view(fields@)),
            r matches Err(e) ==> e == ConvError::Mismatch,
    {
        let ghost vv = values_view(fields@);
        if fields.len() != self.records[i].fields.len() {
            return Err(ConvError::Mismatch);
        }
        let mut out: Vec<WireValue> = Vec::new();
        let mut k: usize = 0;
        while k < fields.len()
            invariant
                self.wf(),
                i < self.records@.len(),
                vv == values_view(fields@),
                fields@.len() == self.field_count(i as nat),
                k <= fields@.len(),
                out@.len() == k,
                forall|m: int| 0 <= m < k ==> self.has_type(self.field_ty(i as nat, m), #[trigger] vv[m], i as nat),
                forall|m: int| 0 <= m < k ==> (#[trigger] out@[m])@
                    == self.wire_of(self.field_ty(i as nat, m), vv[m], i as nat),
            decreases fields@.len() - k,
        {
            match self.value_to_wire(&self.records[i].fields[k].ty, &fields[k], i) {
                Ok(w) => out.push(w),
                Err(e) => {
                    assert(vv[k as int] == fields@[k as int]@);
                    return Err(e);
                },
            }
            k = k + 1;
        }
        assert(wires_view(out@) =~= self.record_wire(i as nat, vv));
        Ok(out)
    }

    /// The value of record `i` held by `n` wire items of `items` from `start` on.
    fn record_from_items(&self, i: usize, items: &Vec<WireValue>, start: usize) -> (r: Result<Vec<Value>, ConvError>)
        requires
            i < self.records@.len(),
            start + self.field_count(i as nat) <= items@.len(),
        ensures
            ({
                let ws = wires_view(items@).subrange(start as int, (start + self.field_count(i as nat)) as int);
                &&& r matches Ok(vs) ==> self.record_value(i as nat, ws) == Ok::<Seq<ValueV>, ConvError>(values_view(vs@))
                &&& r matches Err(e) ==> self.record_value(i as nat, ws) == Err::<Seq<ValueV>, ConvError>(e)
            }),
    {
        let n = self.records[i].fields.len();
        let total = items.len();
        let ghost ws = wires_view(items@).subrange(start as int, start + n);
        let ghost rs = self.record_results(i as nat, ws);
        let mut out: Vec<Value> = Vec::new();
        let mut k: usize = 0;
        while k < n
            invariant
                i < self.records@.len(),
                n == self.field_count(i as nat),
                start + n <= items@.len(),
                total == items@.len(),
                ws == wires_view(items@).subrange(start as int, start + n),
                rs == self.record_results(i as nat, ws),
                k <= n,
                out@.len() == k,
                forall|m: int| 0 <= m < k ==> rs[m] == Ok::<ValueV, ConvError>((#[trigger] out@[m])@),
            decreases n - k,
        {
            let at = start + k;
            assert(ws[k as int] == items@[at as int]@);
            match self.value_from_wire(&self.records[i].fields[k].ty, &items[at], i) {
                Ok(x) => out.push(x),
                Err(e) => {
                    proof {
                        assert forall|m: int| 0 <= m < k implies #[trigger] rs[m] is Ok by {
                            assert(rs[m] == Ok::<ValueV, ConvError>(out@[m]@));
                        }
                        lemma_collect_err(rs, k as int);
                    }
                    return Err(e);
                },
            }
            k = k + 1;
        }
        proof {
            assert forall|m: int| 0 <= m < rs.len() implies #[trigger] rs[m] is Ok by {
                assert(rs[m] == Ok::<ValueV, ConvError>(out@[m]@));
            }
            lemma_collect_ok(rs);
            assert(values_view(out@) =~= Seq::new(rs.len(), |m: int| rs[m]->Ok_0));
        }
        Ok(out)
    }

    /// The value of record `i` that a tuple of wire items holds, converting field
    /// by field and stopping at the first failure, whose error it returns.
    pub fn from_wire(&self, i: usize, ws: &Vec<WireValue>) -> (r: Result<Vec<Value>, ConvError>)
        requires
            i < self.records@.len(),
        ensures
            r matches Ok(vs) ==> self.record_value(i as nat, wires_view(ws@))
                == Ok::<Seq<ValueV>, ConvError>(values_view(vs@)),
            r matches Err(e) ==> self.record_value(i as nat, wires_view(ws@)) == Err::<Seq<ValueV>, ConvError>(e),
    {
        if ws.len() != self.records[i].fields.len() {
            return Err(ConvError::Mismatch);
        }
        assert(wires_view(ws@).subrange(0, ws@.len() as int) =~= wires_view(ws@));
        self.record_from_items(i, ws, 0)
    }

    /// What packing a value of record `i` appends to a cursor: one structure
    /// for a structure record, the fields one by one for an argument list.
    pub open spec fn packed(&self, i: nat, items: Seq<ValueV>) -> Seq<WireV> {
        if self.records@[i as int].style == RecordStyle::Struct {
            seq![WireV::Struct(self.record_wire(i, items))]
        } else {
            self.record_wire(i, items)
        }
    }

    /// Appends a value of record `i` to `cursor`. On `Mismatch`, when `fields` is
    /// not a value of the record, the cursor is left as it was.
    pub fn pack(&self, i: usize, fields: &Vec<Value>, cursor: &mut Vec<WireValue>) -> (r: Result<(), ConvError>)
        requires
            self.wf(),
            i < self.records@.len(),
        ensures
            r is Ok <==> self.record_has_type(i as nat, values_view(fields@)),
            r is Ok ==> wires_view(final(cursor)@) == wires_view(old(cursor)@) + self.packed(i as nat, values_view(fields@)),
            r is Err ==> final(cursor)@ == old(cursor)@,
    {
        match self.to_wire(i, fields) {
            Ok(ws) => {
                let ghost before = cursor@;
                if self.records[i].style == RecordStyle::Struct {
                    let item = WireValue::Struct(ws);
                    proof {
                        lemma_wire_view_seq(item);
                        assert(item@->Struct_0 =~= wires_view(ws@));
                    }
                    cursor.push(item);
                    assert(wires_view(cursor@) =~= wires_view(before) + self.packed(i as nat, values_view(fields@)));
                } else {
                    let mut ws = ws;
                    let ghost added = ws@;
                    cursor.append(&mut ws);
                    assert(wires_view(cursor@) =~= wires_view(before) + wires_view(added));
                }
                Ok(())
            },
            Err(e) => Err(e),
        }
    }

    /// What unpacking record `i` from position `pos` of a cursor yields: the
    /// record's fields and the position after them, or nothing when the items
    /// there do not hold a value of the record.
    pub open spec fn unpacked(&self, i: nat, cursor: Seq<WireV>, pos: nat) -> Option<(Seq<ValueV>, nat)> {
        let n = self.field_count(i);
        if self.records@[i as int].style == RecordStyle::Struct {
            if pos < cursor.len() && cursor[pos as int] is Struct
                && self.record_value(i, cursor[pos as int]->Struct_0) is Ok {
                Some((self.record_value(i, cursor[pos as int]->Struct_0)->Ok_0, pos + 1))
            } else {
                None
            }
        } else {
            if pos + n <= cursor.len() && self.record_value(i, cursor.subrange(pos as int, (pos + n) as int)) is Ok {
                Some((self.record_value(i, cursor.subrange(pos as int, (pos + n) as int))->Ok_0, pos + n))
            } else {
                None
            }
        }
    }

    /// Reads a value of record `i` at position `pos` of `cursor`: a structure
    /// record from one structure item, an argument list from consecutive items.
    /// Returns the fields and the position after them, or `None` when the items
    /// do not match; a wrong shape is no error, so that a caller may try another
    /// reading.
    pub fn unpack(&self, i: usize, cursor: &Vec<WireValue>, pos: usize) -> (r: Option<(Vec<Value>, usize)>)
        requires
            i < self.records@.len(),
        ensures
            r matches Some((vs, next)) ==> self.unpacked(i as nat, wires_view(cursor@), pos as nat)
                == Some((values_view(vs@), next as nat)),
            r is None ==> self.unpacked(i as nat, wires_view(cursor@), pos as nat) is None,
    {
        let n = self.records[i].fields.len();
        if self.records[i].style == RecordStyle::Struct {
            if pos >= cursor.len() {
                return None;
            }
            match &cursor[pos] {
                WireValue::Struct(ws) => {
                    proof {
                        lemma_wire_view_seq(cursor@[pos as int]);
                        assert(wires_view(cursor@)[pos as int]->Struct_0 =~= wires_view(ws@));
                    }
                    match self.from_wire(i, ws) {
                        Ok(vs) => Some((vs, pos + 1)),
                        Err(_) => None,
                    }
                },
                _ => {
                    proof {
                        lemma_wire_view_seq(cursor@[pos as int]);
                    }
                    None
                },
            }
        } else {
            if pos > cursor.len() || cursor.len() - pos < n {
                return None;
            }
            match self.record_from_items(i, cursor, pos) {
                Ok(vs) => Some((vs, pos + n)),
                Err(_) => None,
            }
        }
    }
}

/// Pack and unpack round trip. Unpacking, at the position where it was
/// appended, a value of a record packed onto any cursor yields that value and
/// the position just after it.
pub proof fn lemma_pack_unpack(s: &Schema, i: nat, items: Seq<ValueV>, cursor: Seq<WireV>)
    requires
        s.wf(),
        s.record_has_type(i, items),
    ensures
        s.unpacked(i, cursor + s.packed(i, items), cursor.len())
            == Some((items, (cursor + s.packed(i, items)).len())),
{
    crate::codec::lemma_record_round_trip(s, i, items);
    let full = cursor + s.packed(i, items);
    if s.records@[i as int].style != RecordStyle::Struct {
        assert(full.subrange(cursor.len() as int, (cursor.len() + s.field_count(i)) as int) =~= s.record_wire(i, items));
    } else {
        assert(full[cursor.len() as int] == WireV::Struct(s.record_wire(i, items)));
    }
}

} // verus!
