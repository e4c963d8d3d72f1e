//! Scalar kinds of the message bus wire format, their signature codes, and the
//! self-describing item tree that a message cursor reads and appends.
use vstd::prelude::*;

verus! {

/// The primitive kinds that the wire format carries directly.
#[derive(PartialEq, Eq, Structural, Clone, Copy, Debug)]
pub enum ScalarKind {
    Byte,
    Bool,
    Int16,
    UInt16,
    Int32,
    UInt32,
    Int64,
    UInt64,
    Double,
    Str,
    UnixFd,
}

/// The one-character signature code of a scalar kind.
pub open spec fn code_of(k: ScalarKind) -> char {
    match k {
        ScalarKind::Byte => 'y',
        ScalarKind::Bool => 'b',
        ScalarKind::Int16 => 'n',
        ScalarKind::UInt16 => 'q',
        ScalarKind::Int32 => 'i',
        ScalarKind::UInt32 => 'u',
        ScalarKind::Int64 => 'x',
        ScalarKind::UInt64 => 't',
        ScalarKind::Double => 'd',
        ScalarKind::Str => 's',
        ScalarKind::UnixFd => 'h',
    }
}

/// Kinds that may key a dictionary: they are ordered and hashable.
pub open spec fn is_key_kind(k: ScalarKind) -> bool {
    k != ScalarKind::Double && k != ScalarKind::UnixFd
}

/// Kinds that can back an enumeration.
pub open spec fn is_integer_kind(k: ScalarKind) -> bool {
    match k {
        ScalarKind::Byte | ScalarKind::Int16 | ScalarKind::UInt16 | ScalarKind::Int32
        | ScalarKind::UInt32 | ScalarKind::Int64 | ScalarKind::UInt64 => true,
        _ => false,
    }
}

/// The largest non-negative value an integer kind holds.
pub open spec fn kind_max(k: ScalarKind) -> nat {
    match k {
        ScalarKind::Byte => 0xff,
        ScalarKind::Int16 => 0x7fff,
        ScalarKind::UInt16 => 0xffff,
        ScalarKind::Int32 => 0x7fff_ffff,
        ScalarKind::UInt32 => 0xffff_ffff,
        ScalarKind::Int64 => 0x7fff_ffff_ffff_ffff,
        _ => 0xffff_ffff_ffff_ffff,
    }
}

impl ScalarKind {
    pub fn code(&self) -> (r: char)
        ensures
            r == code_of(*self),
    {
        match self {
            ScalarKind::Byte => 'y',
            ScalarKind::Bool => 'b',
            ScalarKind::Int16 => 'n',
            ScalarKind::UInt16 => 'q',
            ScalarKind::Int32 => 'i',
            ScalarKind::UInt32 => 'u',
            ScalarKind::Int64 => 'x',
            ScalarKind::UInt64 => 't',
            ScalarKind::Double => 'd',
            ScalarKind::Str => 's',
            ScalarKind::UnixFd => 'h',
        }
    }

    pub fn is_key(&self) -> (r: bool)
        ensures
            r == is_key_kind(*self),
    {
        match self {
            ScalarKind::Double | ScalarKind::UnixFd => false,
            _ => true,
        }
    }

    pub fn is_integer(&self) -> (r: bool)
        ensures
            r == is_integer_kind(*self),
    {
        match self {
            ScalarKind::Byte | ScalarKind::Int16 | ScalarKind::UInt16 | ScalarKind::Int32
            | ScalarKind::UInt32 | ScalarKind::Int64 | ScalarKind::UInt64 => true,
            _ => false,
        }
    }

    pub fn max_value(&self) -> (r: u64)
        ensures
            r as nat == kind_max(*self),
    {
        match self {
            ScalarKind::Byte => 0xff,
            ScalarKind::Int16 => 0x7fff,
            ScalarKind::UInt16 => 0xffff,
            ScalarKind::Int32 => 0x7fff_ffff,
            ScalarKind::UInt32 => 0xffff_ffff,
            ScalarKind::Int64 => 0x7fff_ffff_ffff_ffff,
            _ => 0xffff_ffff_ffff_ffff,
        }
    }
}

/// One scalar value on the wire. A double is carried as its IEEE-754 bit pattern.
#[derive(Debug)]
pub enum Scalar {
    Byte(u8),
    Bool(bool),
    Int16(i16),
    UInt16(u16),
    Int32(i32),
    UInt32(u32),
    Int64(i64),
    UInt64(u64),
    Double(u64),
    Str(String),
    UnixFd(u32),
}

/// The mathematical value of a scalar: a string is its characters.
pub enum ScalarV {
    Byte(u8),
    Bool(bool),
    Int16(i16),
    UInt16(u16),
    Int32(i32),
    UInt32(u32),
    Int64(i64),
    UInt64(u64),
    Double(u64),
    Str(Seq<char>),
    UnixFd(u32),
}

impl View for Scalar {
    type V = ScalarV;

    open spec fn view(&self) -> ScalarV {
        match self {
            Scalar::Byte(v) => ScalarV::Byte(*v),
            Scalar::Bool(v) => ScalarV::Bool(*v),
            Scalar::Int16(v) => ScalarV::Int16(*v),
            Scalar::UInt16(v) => ScalarV::UInt16(*v),
            Scalar::Int32(v) => ScalarV::Int32(*v),
            Scalar::UInt32(v) => ScalarV::UInt32(*v),
            Scalar::Int64(v) => ScalarV::Int64(*v),
            Scalar::UInt64(v) => ScalarV::UInt64(*v),
            Scalar::Double(v) => ScalarV::Double(*v),
            Scalar::Str(v) => ScalarV::Str(v@),
            Scalar::UnixFd(v) => ScalarV::UnixFd(*v),
        }
    }
}

pub open spec fn kind_of(s: ScalarV) -> ScalarKind {
    match s {
        ScalarV::Byte(_) => ScalarKind::Byte,
        ScalarV::Bool(_) => ScalarKind::Bool,
        ScalarV::Int16(_) => ScalarKind::Int16,
        ScalarV::UInt16(_) => ScalarKind::UInt16,
        ScalarV::Int32(_) => ScalarKind::Int32,
        ScalarV::UInt32(_) => ScalarKind::UInt32,
        ScalarV::Int64(_) => ScalarKind::Int64,
        ScalarV::UInt64(_) => ScalarKind::UInt64,
        ScalarV::Double(_) => ScalarKind::Double,
        ScalarV::Str(_) => ScalarKind::Str,
        ScalarV::UnixFd(_) => ScalarKind::UnixFd,
    }
}

/// The non-negative integer that a scalar holds, if it holds one.
pub open spec fn scalar_uint(s: ScalarV) -> Option<nat> {
    match s {
        ScalarV::Byte(v) => Some(v as nat),
        ScalarV::Int16(v) => if v >= 0 { Some(v as nat) } else { None },
        ScalarV::UInt16(v) => Some(v as nat),
        ScalarV::Int32(v) => if v >= 0 { Some(v as nat) } else { None },
        ScalarV::UInt32(v) => Some(v as nat),
        ScalarV::Int64(v) => if v >= 0 { Some(v as nat) } else { None },
        ScalarV::UInt64(v) => Some(v as nat),
        _ => None,
    }
}

/// The scalar of integer kind `k` that holds `n`.
pub open spec fn uint_scalar(k: ScalarKind, n: nat) -> ScalarV {
    match k {
        ScalarKind::Byte => ScalarV::Byte(n as u8),
        ScalarKind::Int16 => ScalarV::Int16(n as i16),
        ScalarKind::UInt16 => ScalarV::UInt16(n as u16),
        ScalarKind::Int32 => ScalarV::Int32(n as i32),
        ScalarKind::UInt32 => ScalarV::UInt32(n as u32),
        ScalarKind::Int64 => ScalarV::Int64(n as i64),
        _ => ScalarV::UInt64(n as u64),
    }
}

pub proof fn lemma_uint_scalar(k: ScalarKind, n: nat)
    requires
        is_integer_kind(k),
        n <= kind_max(k),
    ensures
        kind_of(uint_scalar(k, n)) == k,
        scalar_uint(uint_scalar(k, n)) == Some(n),
{
}

impl Scalar {
    pub fn kind(&self) -> (r: ScalarKind)
        ensures
            r == kind_of(self@),
    {
        match self {
            Scalar::Byte(_) => ScalarKind::Byte,
            Scalar::Bool(_) => ScalarKind::Bool,
            Scalar::Int16(_) => ScalarKind::Int16,
            Scalar::UInt16(_) => ScalarKind::UInt16,
            Scalar::Int32(_) => ScalarKind::Int32,
            Scalar::UInt32(_) => ScalarKind::UInt32,
            Scalar::Int64(_) => ScalarKind::Int64,
            Scalar::UInt64(_) => ScalarKind::UInt64,
            Scalar::Double(_) => ScalarKind::Double,
            Scalar::Str(_) => ScalarKind::Str,
            Scalar::UnixFd(_) => ScalarKind::UnixFd,
        }
    }

    /// A copy of this scalar.
    pub fn duplicate(&self) -> (r: Scalar)
        ensures
            r@ == self@,
    {
        match self {
            Scalar::Byte(v) => Scalar::Byte(*v),
            Scalar::Bool(v) => Scalar::Bool(*v),
            Scalar::Int16(v) => Scalar::Int16(*v),
            Scalar::UInt16(v) => Scalar::UInt16(*v),
            Scalar::Int32(v) => Scalar::Int32(*v),
            Scalar::UInt32(v) => Scalar::UInt32(*v),
            Scalar::Int64(v) => Scalar::Int64(*v),
            Scalar::UInt64(v) => Scalar::UInt64(*v),
            Scalar::Double(v) => Scalar::Double(*v),
            Scalar::Str(v) => Scalar::Str(v.clone()),
            Scalar::UnixFd(v) => Scalar::UnixFd(*v),
        }
    }

    /// The scalar of integer kind `k` that holds `v`.
    pub fn from_uint(k: ScalarKind, v: u64) -> (r: Scalar)
        requires
            is_integer_kind(k),
            v as nat <= kind_max(k),
        ensures
            r@ == uint_scalar(k, v as nat),
            kind_of(r@) == k,
            scalar_uint(r@) == Some(v as nat),
    {
        match k {
            ScalarKind::Byte => Scalar::Byte(v as u8),
            ScalarKind::Int16 => Scalar::Int16(v as i16),
            ScalarKind::UInt16 => Scalar::UInt16(v as u16),
            ScalarKind::Int32 => Scalar::Int32(v as i32),
            ScalarKind::UInt32 => Scalar::UInt32(v as u32),
            ScalarKind::Int64 => Scalar::Int64(v as i64),
            _ => Scalar::UInt64(v),
        }
    }

    /// The non-negative integer this scalar holds, if any.
    pub fn as_uint(&self) -> (r: Option<u64>)
        ensures
            r matches Some(v) ==> scalar_uint(self@) == Some(v as nat),
            r is None ==> scalar_uint(self@) is None,
    {
        match self {
            Scalar::Byte(v) => Some(*v as u64),
            Scalar::Int16(v) => if *v >= 0 { Some(*v as u64) } else { None },
            Scalar::UInt16(v) => Some(*v as u64),
            Scalar::Int32(v) => if *v >= 0 { Some(*v as u64) } else { None },
            Scalar::UInt32(v) => Some(*v as u64),
            Scalar::Int64(v) => if *v >= 0 { Some(*v as u64) } else { None },
            Scalar::UInt64(v) => Some(*v),
            _ => None,
        }
    }
}

/// One item of a message as a cursor sees it: a scalar, an array, a dictionary,
/// a structure, or a variant that carries its own signature.
#[derive(Debug)]
pub enum WireValue {
    Scalar(Scalar),
    Array(Vec<WireValue>),
    Dict(Vec<(Scalar, WireValue)>),
    Struct(Vec<WireValue>),
    Variant(Box<WireValue>),
}

/// The mathematical value of a wire item.
pub enum WireV {
    Scalar(ScalarV),
    Array(Seq<WireV>),
    Dict(Seq<(ScalarV, WireV)>),
    Struct(Seq<WireV>),
    Variant(Box<WireV>),
}

impl View for WireValue {
    type V = WireV;

    open spec fn view(&self) -> WireV {
        wire_view(*self)
    }
}

/// The mathematical value of `w`.
pub open spec fn wire_view(w: WireValue) -> WireV
    decreases w,
{
    match w {
        WireValue::Scalar(x) => WireV::Scalar(x@),
        WireValue::Array(items) => WireV::Array(Seq::new(items@.len(), |k: int|
            if 0 <= k < items@.len() { wire_view(items@[k]) } else { WireV::Array(Seq::empty()) })),
        WireValue::Dict(items) => WireV::Dict(Seq::new(items@.len(), |k: int|
            if 0 <= k < items@.len() {
                (items@[k].0@, wire_view(items@[k].1))
            } else {
                (ScalarV::Bool(false), WireV::Array(Seq::empty()))
            })),
        WireValue::Struct(items) => WireV::Struct(Seq::new(items@.len(), |k: int|
            if 0 <= k < items@.len() { wire_view(items@[k]) } else { WireV::Array(Seq::empty()) })),
        WireValue::Variant(b) => WireV::Variant(Box::new(wire_view(*b))),
    }
}

} // verus!
