//! Two lints on casts: `cast_abs_to_unsigned` and `cast_ref_to_mut`.
use vstd::prelude::*;
use crate::rust_version::{RustVersion, caret_meets, meets_msrv, unsigned_abs_msrv};

verus! {

/// The type on one side of a cast, as far as the lints read it.
pub struct CastType {
    /// The type as it is printed, such as `i32`.
    pub name: String,
    pub is_integral: bool,
    pub is_signed: bool,
}

/// The expression being cast.
pub enum CastOperand {
    /// A method call `receiver.method(..)`; `receiver` is the receiver as it
    /// should be printed in a suggestion.
    MethodCall { method: String, receiver: String },
    /// Any other expression.
    Other,
}

/// A lint report with a machine-applicable replacement.
pub struct LintSuggestion {
    pub message: String,
    /// The help text shown with the replacement.
    pub help: String,
    pub replacement: String,
}

/// The report of `cast_abs_to_unsigned` on `operand as cast_to`, where the
/// operand has type `cast_from`.
pub open spec fn abs_to_unsigned_report(
    msrv: Option<RustVersion>,
    cast_from: Seq<char>,
    from_integral: bool,
    from_signed: bool,
    cast_to: Seq<char>,
    to_integral: bool,
    to_signed: bool,
    method: Option<(Seq<char>, Seq<char>)>,
) -> Option<(Seq<char>, Seq<char>, Seq<char>)> {
    let msrv_ok = match msrv {
        Some(v) => caret_meets(v, RustVersion::Normal { major: 1, minor: 51, patch: 0 }),
        None => true,
    };
    if msrv_ok && from_integral && to_integral && from_signed && !to_signed {
        match method {
            Some((name, receiver)) => if name == "abs"@ {
                Some((
                    "casting the result of `"@ + cast_from + "::abs()` to "@ + cast_to,
                    "replace with"@,
                    receiver + ".unsigned_abs()"@,
                ))
            } else {
                None
            },
            None => None,
        }
    } else {
        None
    }
}

/// The method name and receiver of a method-call operand.
pub open spec fn operand_view(operand: &CastOperand) -> Option<(Seq<char>, Seq<char>)> {
    match operand {
        CastOperand::MethodCall { method, receiver } => Some((method@, receiver@)),
        CastOperand::Other => None,
    }
}

/// The view of a report as its message, help text and replacement.
pub open spec fn suggestion_view(s: Option<LintSuggestion>) -> Option<(Seq<char>, Seq<char>, Seq<char>)> {
    match s {
        Some(l) => Some((l.message@, l.help@, l.replacement@)),
        None => None,
    }
}

/// `cast_abs_to_unsigned`: `x.abs() as u32` on a signed `x` is better written
/// `x.unsigned_abs()`, which cannot overflow. Only reported when the
/// configured MSRV has `unsigned_abs` (1.51.0 or later).
pub fn check_cast_abs_to_unsigned(
    msrv: Option<RustVersion>,
    cast_from: &CastType,
    cast_to: &CastType,
    operand: &CastOperand,
) -> (report: Option<LintSuggestion>)
    ensures
        suggestion_view(report) == abs_to_unsigned_report(
            msrv,
            cast_from.name@,
            cast_from.is_integral,
            cast_from.is_signed,
            cast_to.name@,
            cast_to.is_integral,
            cast_to.is_signed,
            operand_view(operand),
        ),
{
    if meets_msrv(msrv, unsigned_abs_msrv()) && cast_from.is_integral && cast_to.is_integral
        && cast_from.is_signed && !cast_to.is_signed {
        match operand {
            CastOperand::MethodCall { method, receiver } => {
                let abs = String::from_str("abs");
                proof {
                    reveal_strlit("abs");
                }
                if *method == abs {
                    let mut message = String::from_str("casting the result of `");
                    message.append(cast_from.name.as_str());
                    message.append("::abs()` to ");
                    message.append(cast_to.name.as_str());
                    let mut replacement = receiver.clone();
                    replacement.append(".unsigned_abs()");
                    Some(LintSuggestion { message, help: String::from_str("replace with"), replacement })
                } else {
                    None
                }
            },
            CastOperand::Other => None,
        }
    } else {
        None
    }
}

/// `cast_abs_to_unsigned` only reports a call of `abs` on a signed integer
/// whose result is cast to an unsigned integer type, and only where the MSRV
/// allows `unsigned_abs` (no MSRV, or a 1.x at 1.51 or later); a cast to any
/// other target is never reported.
pub proof fn lemma_abs_report_needs_signed_to_unsigned_integers(
    msrv: Option<RustVersion>,
    cast_from: Seq<char>,
    from_integral: bool,
    from_signed: bool,
    cast_to: Seq<char>,
    to_integral: bool,
    to_signed: bool,
    method: Option<(Seq<char>, Seq<char>)>,
)
    ensures
        abs_to_unsigned_report(msrv, cast_from, from_integral, from_signed, cast_to, to_integral, to_signed, method)
            is Some ==> {
            &&& from_integral
            &&& from_signed
            &&& to_integral
            &&& !to_signed
            &&& (method matches Some((name, _)) && name == "abs"@)
            &&& (msrv matches Some(RustVersion::Normal { major, minor, patch }) ==> major == 1 && minor >= 51)
        },
{
    reveal_strlit("abs");
}

/// On `x.abs() as U`, with `x` of a signed integer type `T` and `U` an
/// unsigned integer type, and no MSRV that rules it out, the lint reports
/// the cast, names both types, and replaces the expression by
/// `x.unsigned_abs()`.
pub proof fn lemma_abs_cast_reported(
    cast_from: Seq<char>,
    cast_to: Seq<char>,
    receiver: Seq<char>,
)
    ensures
        abs_to_unsigned_report(None, cast_from, true, true, cast_to, true, false, Some(("abs"@, receiver))) == Some((
            "casting the result of `"@ + cast_from + "::abs()` to "@ + cast_to,
            "replace with"@,
            receiver + ".unsigned_abs()"@,
        )),
{
}

/// The target type of a cast, as far as `cast_ref_to_mut` reads it.
#[derive(Clone, Copy, Debug, PartialEq, Eq, Structural)]
pub enum CastTarget {
    /// `*mut T`
    MutPtr,
    /// `*const T`
    ConstPtr,
    /// Any other type.
    Other,
}

/// The shape of an expression, as far as `cast_ref_to_mut` reads it.
pub enum RefCastKind {
    /// `*inner`
    Deref(Box<RefCastExpr>),
    /// `operand as target`
    Cast(CastTarget, Box<RefCastExpr>),
    /// Any other expression.
    Other,
}

/// An expression with the fact about its type that the lint reads: whether
/// its inferred type is a reference type `&T` or `&mut T`.
pub struct RefCastExpr {
    pub kind: RefCastKind,
    pub is_reference: bool,
}

/// `*(r as *const T as *mut T)` where `r` has a reference type.
pub open spec fn is_ref_to_mut_cast(e: RefCastExpr) -> bool {
    match e.kind {
        RefCastKind::Deref(inner) => match inner.kind {
            RefCastKind::Cast(CastTarget::MutPtr, operand) => match operand.kind {
                RefCastKind::Cast(CastTarget::ConstPtr, reference) => reference.is_reference,
                _ => false,
            },
            _ => false,
        },
        _ => false,
    }
}

/// `cast_ref_to_mut` only fires on a dereference of a cast to `*mut T` of a
/// cast to `*const T` of an expression of reference type; a bare pointer
/// cast, without the dereference, is never reported.
pub proof fn lemma_ref_to_mut_needs_deref(e: RefCastExpr)
    ensures
        is_ref_to_mut_cast(e) ==> (e.kind matches RefCastKind::Deref(inner)
            && (inner.kind matches RefCastKind::Cast(CastTarget::MutPtr, operand)
            && (operand.kind matches RefCastKind::Cast(CastTarget::ConstPtr, reference) && reference.is_reference))),
        e.kind is Cast ==> !is_ref_to_mut_cast(e),
        e.kind is Other ==> !is_ref_to_mut_cast(e),
{
}

/// Every dereference of `r as *const T as *mut T`, with `r` of reference
/// type, is reported, whatever `r` is.
pub proof fn lemma_ref_to_mut_reported(e: RefCastExpr)
    requires
        e.kind matches RefCastKind::Deref(inner) && (inner.kind matches RefCastKind::Cast(CastTarget::MutPtr, operand)
            && (operand.kind matches RefCastKind::Cast(CastTarget::ConstPtr, reference) && reference.is_reference)),
    ensures
        is_ref_to_mut_cast(e),
{
}

/// `cast_ref_to_mut`: casting `&T` to `&mut T` through raw pointers, as in
/// `*(r as *const T as *mut T)`, may cause undefined behavior.
pub fn check_cast_ref_to_mut(expr: &RefCastExpr) -> (lint: bool)
    ensures
        lint == is_ref_to_mut_cast(*expr),
{
    if let RefCastKind::Deref(inner) = &expr.kind {
        if let RefCastKind::Cast(CastTarget::MutPtr, operand) = &inner.kind {
            if let RefCastKind::Cast(CastTarget::ConstPtr, reference) = &operand.kind {
                return reference.is_reference;
            }
        }
    }
    false
}

/// The message of `cast_ref_to_mut`.
pub fn ref_to_mut_message() -> (message: String)
    ensures
        message@ == "casting `&T` to `&mut T` may cause undefined behavior, consider instead using an `UnsafeCell`"@,
{
    String::from_str("casting `&T` to `&mut T` may cause undefined behavior, consider instead using an `UnsafeCell`")
}

} // verus!
