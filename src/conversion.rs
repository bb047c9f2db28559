use vstd::prelude::*;
use crate::ast::{path_name, seg_converted, segs_converted, ty_converted, Ty};
use crate::triviality::{type_trivial, DeclV};
use crate::types::TypeName;

verus! {

/// How a value crosses the bridge.
#[derive(Debug, Clone, Copy, PartialEq, Eq)]
pub enum ConversionKind {
    /// Passed unchanged.
    Unconverted,
    /// Arrives as a unique-ownership handle and is unwrapped for the
    /// foreign callee.
    FromUniquePtr,
    /// Comes back from the foreign side and is wrapped into a
    /// unique-ownership handle.
    ToUniquePtr,
}

/// The conversion of one parameter or return slot.
pub struct ArgumentConversion {
    pub ty: Ty,
    pub kind: ConversionKind,
}

impl ArgumentConversion {
    pub fn unconverted(ty: Ty) -> (r: ArgumentConversion)
        ensures
            r.ty == ty,
            r.kind == ConversionKind::Unconverted,
    {
        ArgumentConversion { ty, kind: ConversionKind::Unconverted }
    }

    pub fn from_unique_ptr(ty: Ty) -> (r: ArgumentConversion)
        ensures
            r.ty == ty,
            r.kind == ConversionKind::FromUniquePtr,
    {
        ArgumentConversion { ty, kind: ConversionKind::FromUniquePtr }
    }

    pub fn to_unique_ptr(ty: Ty) -> (r: ArgumentConversion)
        ensures
            r.ty == ty,
            r.kind == ConversionKind::ToUniquePtr,
    {
        ArgumentConversion { ty, kind: ConversionKind::ToUniquePtr }
    }

    /// Whether glue code must be generated for this slot.
    pub fn work_needed(&self) -> (r: bool)
        ensures
            r == (self.kind != ConversionKind::Unconverted),
    {
        match self.kind {
            ConversionKind::Unconverted => false,
            _ => true,
        }
    }
}

/// A conversion that the rewritten declarations cannot express, left to a
/// second code generator.
pub enum AdditionalNeed {
    /// A factory for the type, taking arguments of the given types.
    MakeUnique(TypeName, Vec<TypeName>),
    /// A wrapper around the function with this bridge identifier, with the
    /// conversion of its return slot and of each parameter in order.
    ByValueWrapper(String, Option<ArgumentConversion>, Vec<ArgumentConversion>),
}

/// The conversion of a parameter of (rewritten) type `t`.
pub open spec fn param_kind(decls: Seq<DeclV>, t: Ty) -> ConversionKind {
    match t {
        Ty::Path { segments } => if type_trivial(decls, path_name(segments@)) {
            ConversionKind::Unconverted
        } else {
            ConversionKind::FromUniquePtr
        },
        _ => ConversionKind::Unconverted,
    }
}

/// The conversion of a return slot of (rewritten) type `t`.
pub open spec fn return_kind(decls: Seq<DeclV>, t: Ty) -> ConversionKind {
    match t {
        Ty::Path { segments } => if type_trivial(decls, path_name(segments@)) {
            ConversionKind::Unconverted
        } else {
            ConversionKind::ToUniquePtr
        },
        _ => ConversionKind::Unconverted,
    }
}

/// Rewriting pointers into references changes no slot's conversion.
pub proof fn lemma_kinds_preserved(decls: Seq<DeclV>, a: Ty, b: Ty)
    requires
        ty_converted(a, b),
    ensures
        param_kind(decls, a) == param_kind(decls, b),
        return_kind(decls, a) == return_kind(decls, b),
{
    if let Ty::Path { segments } = a {
        let s2 = b->segments;
        let n = segments.len() as int;
        assert(b is Path);
        assert(segments.len() == s2.len() && segs_converted(segments@, s2@, n));
        if n > 0 {
            reveal_with_fuel(segs_converted, 2);
            assert(seg_converted(segments@[n - 1], s2@[n - 1]));
            assert(path_name(segments@) == path_name(s2@));
        } else {
            assert(path_name(segments@) =~= path_name(s2@));
        }
    }
}

} // verus!
