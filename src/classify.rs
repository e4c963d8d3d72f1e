//! Classification of declared field types into the schema's type model.
use vstd::prelude::*;
use crate::wire::{ScalarKind, is_key_kind};
use crate::schema::{TypeRef, FieldDescriptor};

verus! {

/// The head of a generic type as it is written in a declaration.
#[derive(PartialEq, Eq, Structural, Clone, Copy, Debug)]
pub enum Head {
    Vec,
    HashMap,
    BTreeMap,
    Box,
    Arc,
    Rc,
    /// Any generic type outside the container table.
    Other,
}

/// A user-declared type of the schema, by kind and index.
#[derive(PartialEq, Eq, Structural, Clone, Copy, Debug)]
pub enum UserType {
    Record(usize),
    Enum(usize),
    PropMap(usize),
}

/// A field type as it is declared.
#[derive(Debug)]
pub enum TypeExpr {
    Prim(ScalarKind),
    User(UserType),
    Generic(Head, Vec<TypeExpr>),
    Reference(Box<TypeExpr>),
    Slice(Box<TypeExpr>),
    Array(Box<TypeExpr>),
    RawPointer(Box<TypeExpr>),
    Function,
}

/// One field as declared: its name, its type, an optional type that replaces it
/// on the wire, and whether it is a record with a derived schema.
#[derive(Debug)]
pub struct FieldDecl {
    pub name: Option<String>,
    pub declared: TypeExpr,
    pub override_type: Option<TypeExpr>,
    pub derived: bool,
}

/// Why a field type cannot be classified.
#[derive(PartialEq, Eq, Structural, Clone, Copy, Debug)]
pub enum ClassifyError {
    /// A raw pointer, a function, or a generic type outside the container table.
    Unsupported,
    /// A container with fewer generic arguments than it needs.
    MissingArgument,
    /// A dictionary key that is not an orderable, hashable scalar.
    BadKey,
    /// A field marked derived whose type is not a record.
    NotARecord,
}

/// The offending field, by position, and what is wrong with its type.
#[derive(PartialEq, Eq, Structural, Clone, Copy, Debug)]
pub struct FieldError {
    pub field: usize,
    pub error: ClassifyError,
}

/// The classified type of a declared type: scalars as they are, containers of
/// the table by their designated arguments, wrappers transparently, and anything
/// else refused.
pub open spec fn classify_spec(e: TypeExpr) -> Result<TypeRef, ClassifyError>
    decreases e,
{
    match e {
        TypeExpr::Prim(k) => Ok(TypeRef::Scalar(k)),
        TypeExpr::User(UserType::Record(j)) => Ok(TypeRef::Composite(j)),
        TypeExpr::User(UserType::Enum(j)) => Ok(TypeRef::Enum(j)),
        TypeExpr::User(UserType::PropMap(j)) => Ok(TypeRef::PropMap(j)),
        TypeExpr::Reference(b) => wrap(classify_spec(*b)),
        TypeExpr::Slice(b) => wrap(classify_spec(*b)),
        TypeExpr::Array(b) => wrap(classify_spec(*b)),
        TypeExpr::RawPointer(_) => Err(ClassifyError::Unsupported),
        TypeExpr::Function => Err(ClassifyError::Unsupported),
        TypeExpr::Generic(h, args) => match h {
            Head::Vec => if args@.len() < 1 {
                Err(ClassifyError::MissingArgument)
            } else {
                match classify_spec(args@[0]) {
                    Ok(t) => Ok(TypeRef::List(Box::new(t))),
                    Err(err) => Err(err),
                }
            },
            Head::Box | Head::Arc | Head::Rc => if args@.len() < 1 {
                Err(ClassifyError::MissingArgument)
            } else {
                wrap(classify_spec(args@[0]))
            },
            Head::HashMap | Head::BTreeMap => if args@.len() < 2 {
                Err(ClassifyError::MissingArgument)
            } else {
                match args@[0] {
                    TypeExpr::Prim(k) => if !is_key_kind(k) {
                        Err(ClassifyError::BadKey)
                    } else {
                        match classify_spec(args@[1]) {
                            Ok(t) => Ok(TypeRef::Dict(k, Box::new(t))),
                            Err(err) => Err(err),
                        }
                    },
                    _ => Err(ClassifyError::BadKey),
                }
            },
            Head::Other => Err(ClassifyError::Unsupported),
        },
    }
}

pub open spec fn wrap(r: Result<TypeRef, ClassifyError>) -> Result<TypeRef, ClassifyError> {
    match r {
        Ok(t) => Ok(TypeRef::Wrapper(Box::new(t))),
        Err(err) => Err(err),
    }
}

/// The classified type of a field: its override if it has one; else, when it is
/// marked derived, the record its type names; else its declared type.
pub open spec fn classify_field_spec(d: FieldDecl) -> Result<TypeRef, ClassifyError> {
    match d.override_type {
        Some(o) => classify_spec(o),
        None => if d.derived {
            match d.declared {
                TypeExpr::User(UserType::Record(j)) => Ok(TypeRef::Composite(j)),
                _ => Err(ClassifyError::NotARecord),
            }
        } else {
            classify_spec(d.declared)
        },
    }
}

fn wrap_exec(r: Result<TypeRef, ClassifyError>) -> (out: Result<TypeRef, ClassifyError>)
    ensures
        out == wrap(r),
{
    match r {
        Ok(t) => Ok(TypeRef::Wrapper(Box::new(t))),
        Err(err) => Err(err),
    }
}

/// Classifies a declared type.
pub fn classify(e: &TypeExpr) -> (r: Result<TypeRef, ClassifyError>)
    ensures
        r == classify_spec(*e),
    decreases e,
{
    match e {
        TypeExpr::Prim(k) => Ok(TypeRef::Scalar(*k)),
        TypeExpr::User(UserType::Record(j)) => Ok(TypeRef::Composite(*j)),
        TypeExpr::User(UserType::Enum(j)) => Ok(TypeRef::Enum(*j)),
        TypeExpr::User(UserType::PropMap(j)) => Ok(TypeRef::PropMap(*j)),
        TypeExpr::Reference(b) => wrap_exec(classify(b)),
        TypeExpr::Slice(b) => wrap_exec(classify(b)),
        TypeExpr::Array(b) => wrap_exec(classify(b)),
        TypeExpr::RawPointer(_) => Err(ClassifyError::Unsupported),
        TypeExpr::Function => Err(ClassifyError::Unsupported),
        TypeExpr::Generic(h, args) => {
            proof {
                assert(decreases_to!(*e => (*e)->Generic_1));
                assert(decreases_to!((*e)->Generic_1 => (*e)->Generic_1@));
            }
            match h {
                Head::Vec => {
                    if args.len() < 1 {
                        Err(ClassifyError::MissingArgument)
                    } else {
                        proof {
                            assert(decreases_to!(args@ => args@[0]));
                        }
                        match classify(&args[0]) {
                            Ok(t) => Ok(TypeRef::List(Box::new(t))),
                            Err(err) => Err(err),
                        }
                    }
                },
                Head::Box | Head::Arc | Head::Rc => {
                    if args.len() < 1 {
                        Err(ClassifyError::MissingArgument)
                    } else {
                        proof {
                            assert(decreases_to!(args@ => args@[0]));
                        }
                        wrap_exec(classify(&args[0]))
                    }
                },
                Head::HashMap | Head::BTreeMap => {
                    if args.len() < 2 {
                        Err(ClassifyError::MissingArgument)
                    } else {
                        match &args[0] {
                            TypeExpr::Prim(k) => {
                                if !k.is_key() {
                                    Err(ClassifyError::BadKey)
                                } else {
                                    proof {
                                        assert(decreases_to!(args@ => args@[1]));
                                    }
                                    match classify(&args[1]) {
                                        Ok(t) => Ok(TypeRef::Dict(*k, Box::new(t))),
                                        Err(err) => Err(err),
                                    }
                                }
                            },
                            _ => Err(ClassifyError::BadKey),
                        }
                    }
                },
                Head::Other => Err(ClassifyError::Unsupported),
            }
        },
    }
}

/// Classifies one declared field.
pub fn classify_field(d: &FieldDecl) -> (r: Result<TypeRef, ClassifyError>)
    ensures
        r == classify_field_spec(*d),
{
    match &d.override_type {
        Some(o) => classify(o),
        None => {
            if d.derived {
                match &d.declared {
                    TypeExpr::User(UserType::Record(j)) => Ok(TypeRef::Composite(*j)),
                    _ => Err(ClassifyError::NotARecord),
                }
            } else {
                classify(&d.declared)
            }
        },
    }
}

/// Classifies the fields of a record in order. Stops at the first field that
/// cannot be classified and names it.
pub fn classify_fields(decls: &Vec<FieldDecl>) -> (r: Result<Vec<FieldDescriptor>, FieldError>)
    ensures
        r matches Ok(fs) ==> fs@.len() == decls@.len() && forall|k: int| 0 <= k < fs@.len()
            ==> Ok::<TypeRef, ClassifyError>((#[trigger] fs@[k]).ty) == classify_field_spec(decls@[k])
                && fs@[k].name == decls@[k].name,
        r matches Err(e) ==> e.field < decls@.len()
            && classify_field_spec(decls@[e.field as int]) == Err::<TypeRef, ClassifyError>(e.error)
            && forall|k: int| 0 <= k < e.field ==> (#[trigger] classify_field_spec(decls@[k])) is Ok,
{
    let mut out: Vec<FieldDescriptor> = Vec::new();
    let mut k: usize = 0;
    while k < decls.len()
        invariant
            k <= decls@.len(),
            out@.len() == k,
            forall|m: int| 0 <= m < k ==> Ok::<TypeRef, ClassifyError>((#[trigger] out@[m]).ty)
                == classify_field_spec(decls@[m]) && out@[m].name == decls@[m].name,
        decreases decls@.len() - k,
    {
        match classify_field(&decls[k]) {
            Ok(ty) => {
                out.push(FieldDescriptor { name: decls[k].name.clone(), ty });
            },
            Err(error) => {
                proof {
                    assert forall|m: int| 0 <= m < k implies (#[trigger] classify_field_spec(decls@[m])) is Ok by {
                        assert(Ok::<TypeRef, ClassifyError>(out@[m].ty) == classify_field_spec(decls@[m]));
                    }
                }
                return Err(FieldError { field: k, error });
            },
        }
        k = k + 1;
    }
    Ok(out)
}

} // verus!
