//! Wire signatures of classified types and of records.
use vstd::prelude::*;
use crate::wire::{ScalarKind, code_of};
use crate::schema::{Schema, TypeRef, RecordStyle};

verus! {

/// The signature of a property map: a dictionary from strings to variants.
pub open spec fn prop_map_sig() -> Seq<char> {
    seq!['a', '{', 's', 'v', '}']
}

impl Schema {
    /// The signature of `t` inside a record that may refer to records below `bound`.
    pub open spec fn type_sig(&self, t: TypeRef, bound: nat) -> Seq<char>
        decreases bound, 0nat, 0nat, t,
    {
        match t {
            TypeRef::Scalar(k) => seq![code_of(k)],
            TypeRef::Wrapper(b) => self.type_sig(*b, bound),
            TypeRef::List(b) => seq!['a'] + self.type_sig(*b, bound),
            TypeRef::Dict(k, b) => seq!['a', '{', code_of(k)] + self.type_sig(*b, bound) + seq!['}'],
            TypeRef::Composite(j) => if j < bound {
                self.record_sig(j as nat)
            } else {
                Seq::empty()
            },
            TypeRef::Enum(j) => if j < self.enums@.len() {
                seq![code_of(self.enums@[j as int].backing)]
            } else {
                Seq::empty()
            },
            TypeRef::PropMap(_) => prop_map_sig(),
        }
    }

    /// The signatures of the first `n` fields of record `i`, concatenated.
    pub open spec fn fields_sig(&self, i: nat, n: nat) -> Seq<char>
        decreases i, 1nat, n, TypeRef::Scalar(ScalarKind::Byte),
    {
        if n == 0 || i >= self.records@.len() || n > self.records@[i as int].fields@.len() {
            Seq::empty()
        } else {
            self.fields_sig(i, (n - 1) as nat)
                + self.type_sig(self.records@[i as int].fields@[n - 1].ty, i)
        }
    }

    /// The signature of record `i`: its fields' signatures in parentheses, except
    /// for an argument list of one field, which is that field's signature alone.
    pub open spec fn record_sig(&self, i: nat) -> Seq<char>
        decreases i, 2nat, 0nat, TypeRef::Scalar(ScalarKind::Byte),
    {
        if i >= self.records@.len() {
            Seq::empty()
        } else {
            let r = self.records@[i as int];
            let inner = self.fields_sig(i, r.fields@.len());
            if r.style == RecordStyle::Args && r.fields@.len() == 1 {
                inner
            } else {
                seq!['('] + inner + seq![')']
            }
        }
    }

    /// The signature of each field of record `i`, in declaration order.
    pub open spec fn field_sigs(&self, i: nat) -> Seq<Seq<char>> {
        let fs = self.records@[i as int].fields@;
        Seq::new(fs.len(), |k: int| self.type_sig(fs[k].ty, i))
    }

    /// Appends the signature of `t` to `out`.
    pub fn append_type_signature(&self, t: &TypeRef, bound: usize, out: &mut Vec<char>)
        requires
            bound <= self.records@.len(),
        ensures
            final(out)@ == old(out)@ + self.type_sig(*t, bound as nat),
        decreases bound, 0nat, 0nat, t,
    {
        match t {
            TypeRef::Scalar(k) => {
                out.push(k.code());
            },
            TypeRef::Wrapper(b) => {
                self.append_type_signature(b, bound, out);
            },
            TypeRef::List(b) => {
                out.push('a');
                self.append_type_signature(b, bound, out);
            },
            TypeRef::Dict(k, b) => {
                out.push('a');
                out.push('{');
                out.push(k.code());
                self.append_type_signature(b, bound, out);
                out.push('}');
            },
            TypeRef::Composite(j) => {
                if *j < bound {
                    self.append_record_signature(*j, out);
                }
            },
            TypeRef::Enum(j) => {
                if *j < self.enums.len() {
                    out.push(self.enums[*j].backing.code());
                }
            },
            TypeRef::PropMap(_) => {
                out.push('a');
                out.push('{');
                out.push('s');
                out.push('v');
                out.push('}');
            },
        }
        proof {
            assert(final(out)@ =~= old(out)@ + self.type_sig(*t, bound as nat));
        }
    }

    fn append_fields_signature(&self, i: usize, n: usize, out: &mut Vec<char>)
        requires
            i < self.records@.len(),
            n <= self.records@[i as int].fields@.len(),
        ensures
            final(out)@ == old(out)@ + self.fields_sig(i as nat, n as nat),
        decreases i, 1nat, n, TypeRef::Scalar(ScalarKind::Byte),
    {
        if n == 0 {
            assert(final(out)@ =~= old(out)@ + self.fields_sig(i as nat, n as nat));
        } else {
            self.append_fields_signature(i, n - 1, out);
            self.append_type_signature(&self.records[i].fields[n - 1].ty, i, out);
            assert(final(out)@ =~= old(out)@ + self.fields_sig(i as nat, n as nat));
        }
    }

    /// Appends the signature of record `i` to `out`.
    pub fn append_record_signature(&self, i: usize, out: &mut Vec<char>)
        requires
            i < self.records@.len(),
        ensures
            final(out)@ == old(out)@ + self.record_sig(i as nat),
        decreases i, 2nat, 0nat, TypeRef::Scalar(ScalarKind::Byte),
    {
        let r = &self.records[i];
        let n = r.fields.len();
        if r.style == RecordStyle::Args && n == 1 {
            self.append_fields_signature(i, n, out);
        } else {
            out.push('(');
            self.append_fields_signature(i, n, out);
            out.push(')');
        }
        assert(final(out)@ =~= old(out)@ + self.record_sig(i as nat));
    }

    /// The signature of record `i`, as text.
    pub fn signature(&self, i: usize) -> (r: String)
        requires
            i < self.records@.len(),
        ensures
            r@ == self.record_sig(i as nat),
    {
        let mut out: Vec<char> = Vec::new();
        self.append_record_signature(i, &mut out);
        assert(out@ =~= Seq::<char>::empty() + self.record_sig(i as nat));
        chars_to_string(&out)
    }

    /// The signature of a field type `t` of record `bound` (or of a free-standing
    /// type, with `bound` the number of records), as text.
    pub fn type_signature(&self, t: &TypeRef, bound: usize) -> (r: String)
        requires
            bound <= self.records@.len(),
        ensures
            r@ == self.type_sig(*t, bound as nat),
    {
        let mut out: Vec<char> = Vec::new();
        self.append_type_signature(t, bound, &mut out);
        assert(out@ =~= Seq::<char>::empty() + self.type_sig(*t, bound as nat));
        chars_to_string(&out)
    }
}

proof fn lemma_fields_sig_flatten(s: &Schema, i: nat, n: nat)
    requires
        i < s.records@.len(),
        n <= s.records@[i as int].fields@.len(),
    ensures
        s.fields_sig(i, n) == s.field_sigs(i).take(n as int).flatten_alt(),
    decreases n,
{
    let sigs = s.field_sigs(i);
    if n == 0 {
        assert(sigs.take(0) =~= Seq::<Seq<char>>::empty());
    } else {
        lemma_fields_sig_flatten(s, i, (n - 1) as nat);
        assert(sigs.take(n as int).drop_last() =~= sigs.take(n - 1));
    }
}

/// Composition law. A record's signature is the concatenation of its fields'
/// signatures in declaration order, framed in parentheses; the one exception is an
/// argument list of exactly one field, whose signature is that field's alone. A
/// structure is framed even with one field. A composite field contributes the
/// signature of the record it names.
pub proof fn lemma_record_signature_composition(s: &Schema, i: nat)
    requires
        i < s.records@.len(),
    ensures
        ({
            let r = s.records@[i as int];
            let body = s.field_sigs(i).flatten();
            &&& (r.style == RecordStyle::Args && r.fields@.len() == 1) ==> s.record_sig(i) == body
            &&& (r.style == RecordStyle::Args && r.fields@.len() == 1) ==> s.record_sig(i)
                == s.type_sig(r.fields@[0].ty, i)
            &&& (r.style == RecordStyle::Struct || r.fields@.len() != 1) ==> s.record_sig(i)
                == seq!['('] + body + seq![')']
        }),
        forall|j: usize| j < i ==> #[trigger] s.type_sig(TypeRef::Composite(j), i) == s.record_sig(j as nat),
{
    let r = s.records@[i as int];
    let sigs = s.field_sigs(i);
    lemma_fields_sig_flatten(s, i, r.fields@.len());
    assert(sigs.take(r.fields@.len() as int) =~= sigs);
    sigs.lemma_flatten_and_flatten_alt_are_equivalent();
    if r.fields@.len() == 1 {
        sigs.lemma_flatten_one_element();
    }
}

proof fn lemma_type_sig_stable(s1: &Schema, s2: &Schema, t: TypeRef, bound: nat)
    requires
        s1.records@ == s2.records@,
        s1.enums@ == s2.enums@,
    ensures
        s1.type_sig(t, bound) == s2.type_sig(t, bound),
    decreases bound, 0nat, 0nat, t,
{
    match t {
        TypeRef::Wrapper(b) => lemma_type_sig_stable(s1, s2, *b, bound),
        TypeRef::List(b) => lemma_type_sig_stable(s1, s2, *b, bound),
        TypeRef::Dict(_, b) => lemma_type_sig_stable(s1, s2, *b, bound),
        TypeRef::Composite(j) => {
            if j < bound {
                lemma_signature_stable(s1, s2, j as nat);
            }
        },
        _ => {},
    }
}

proof fn lemma_fields_sig_stable(s1: &Schema, s2: &Schema, i: nat, n: nat)
    requires
        s1.records@ == s2.records@,
        s1.enums@ == s2.enums@,
    ensures
        s1.fields_sig(i, n) == s2.fields_sig(i, n),
    decreases i, 1nat, n, TypeRef::Scalar(ScalarKind::Byte),
{
    if n > 0 && i < s1.records@.len() && n <= s1.records@[i as int].fields@.len() {
        lemma_fields_sig_stable(s1, s2, i, (n - 1) as nat);
        lemma_type_sig_stable(s1, s2, s1.records@[i as int].fields@[n - 1].ty, i);
    }
}

/// Stability. A record's signature depends only on the declared records and
/// enumerations: deriving it again, from the same declarations, gives the same
/// characters.
pub proof fn lemma_signature_stable(s1: &Schema, s2: &Schema, i: nat)
    requires
        s1.records@ == s2.records@,
        s1.enums@ == s2.enums@,
    ensures
        s1.record_sig(i) == s2.record_sig(i),
    decreases i, 2nat, 0nat, TypeRef::Scalar(ScalarKind::Byte),
{
    if i < s1.records@.len() {
        lemma_fields_sig_stable(s1, s2, i, s1.records@[i as int].fields@.len());
    }
}

/// Relies on `String::from_iter` over chars: the string holds those chars in order.
#[verifier::external_body]
fn chars_to_string(chars: &Vec<char>) -> (r: String)
    ensures
        r@ == chars@,
{
    String::from_iter(chars.iter())
}

} // verus!
