//! Enumerations on the wire: each variant travels as its discriminant.
use vstd::prelude::*;
use crate::schema::EnumSchema;
use crate::codec::find_variant;

verus! {

/// Why a scalar does not decode to a variant.
#[derive(PartialEq, Eq, Structural, Clone, Copy, Debug)]
pub enum EnumError {
    /// The scalar is the discriminant of no variant; it is carried for diagnostics.
    UnknownDiscriminant(u64),
}

impl EnumSchema {
    /// The variant whose discriminant is `d`: the first, should several share it.
    pub open spec fn variant_of(&self, d: nat) -> Option<nat> {
        find_variant(self.variants@, d, 0)
    }

    /// The discriminant of variant `variant`.
    pub fn pack(&self, variant: usize) -> (r: u64)
        requires
            variant < self.variants@.len(),
        ensures
            r == self.variants@[variant as int].discriminant,
    {
        self.variants[variant].discriminant
    }

    /// The variant whose discriminant is `raw`, or an error that carries `raw`
    /// when no variant has it.
    pub fn unpack(&self, raw: u64) -> (r: Result<usize, EnumError>)
        ensures
            r matches Ok(x) ==> self.variant_of(raw as nat) == Some(x as nat),
            r matches Err(e) ==> self.variant_of(raw as nat) is None
                && e == EnumError::UnknownDiscriminant(raw),
    {
        let n = self.variants.len();
        let mut i: usize = 0;
        while i < n
            invariant
                n == self.variants@.len(),
                i <= n,
                forall|m: int| 0 <= m < i ==> (#[trigger] self.variants@[m]).discriminant != raw,
            decreases n - i,
        {
            if self.variants[i].discriminant == raw {
                proof {
                    lemma_find_variant_from(self.variants@, raw as nat, i as nat);
                }
                return Ok(i);
            }
            i = i + 1;
        }
        proof {
            lemma_find_variant_from(self.variants@, raw as nat, n as nat);
        }
        Err(EnumError::UnknownDiscriminant(raw))
    }
}

/// Searching from the start finds what searching from `start` finds, when no
/// variant before `start` has the discriminant.
pub proof fn lemma_find_variant_from(vs: Seq<crate::schema::EnumVariant>, d: nat, start: nat)
    requires
        start <= vs.len(),
        forall|m: int| 0 <= m < start ==> (#[trigger] vs[m]).discriminant as nat != d,
    ensures
        find_variant(vs, d, 0) == find_variant(vs, d, start),
    decreases start,
{
    if start > 0 {
        lemma_find_variant_from(vs, d, (start - 1) as nat);
        assert(vs[start - 1].discriminant as nat != d);
    }
}

proof fn lemma_find_variant_found(vs: Seq<crate::schema::EnumVariant>, d: nat, start: nat)
    ensures
        find_variant(vs, d, start) matches Some(x) ==> start <= x < vs.len()
            && vs[x as int].discriminant as nat == d,
        find_variant(vs, d, start) is None <==> forall|m: int| start <= m < vs.len()
            ==> (#[trigger] vs[m]).discriminant as nat != d,
    decreases vs.len() - start,
{
    if start < vs.len() {
        lemma_find_variant_found(vs, d, start + 1);
    }
}

/// Enumeration bounds. Decoding a scalar yields an error exactly when no variant
/// has it as its discriminant; it never falls back to a default variant. A decoded
/// variant has that discriminant, and in a well-formed enumeration decoding undoes
/// encoding.
pub proof fn lemma_enum_bounds(e: &EnumSchema, d: nat)
    ensures
        e.variant_of(d) is None <==> forall|m: int| 0 <= m < e.variants@.len()
            ==> (#[trigger] e.variants@[m]).discriminant as nat != d,
        e.variant_of(d) matches Some(x) ==> x < e.variants@.len()
            && e.variants@[x as int].discriminant as nat == d,
        e.wf() ==> forall|x: int| 0 <= x < e.variants@.len()
            ==> e.variant_of(#[trigger] e.variants@[x].discriminant as nat) == Some(x as nat),
{
    lemma_find_variant_found(e.variants@, d, 0);
    if e.wf() {
        assert forall|x: int| 0 <= x < e.variants@.len()
            implies e.variant_of(#[trigger] e.variants@[x].discriminant as nat) == Some(x as nat) by {
            let dx = e.variants@[x].discriminant as nat;
            lemma_find_variant_found(e.variants@, dx, 0);
            let y = find_variant(e.variants@, dx, 0);
            if y != Some(x as nat) {
                if y is None {
                    assert(e.variants@[x].discriminant as nat == dx);
                } else {
                    assert(e.variants@[y->Some_0 as int].discriminant == e.variants@[x].discriminant);
                }
            }
        }
    }
}

} // verus!
