//! The `unnecessary_join` lint: `.collect::<Vec<String>>().join("")` on an
//! iterator is better written `.collect::<String>()`.
use vstd::prelude::*;

verus! {

/// A type, as far as the lint reads it.
pub enum TypeShape {
    /// `&T`
    Ref(Box<TypeShape>),
    /// `[T]`
    Slice(Box<TypeShape>),
    /// `String`
    String,
    /// Any other type.
    Other,
}

/// The argument of the call of `join`.
pub enum JoinArg {
    /// A string literal with the given contents.
    StrLit(String),
    /// Any other expression.
    Other,
}

/// A region of source code, from byte `lo` to byte `hi`.
#[derive(Clone, Copy, Debug, PartialEq, Eq, Structural)]
pub struct Span {
    pub lo: u32,
    pub hi: u32,
}

/// Whether `ty` is `&[String]`.
pub open spec fn is_ref_to_string_slice(ty: TypeShape) -> bool {
    match ty {
        TypeShape::Ref(inner) => match *inner {
            TypeShape::Slice(elem) => *elem is String,
            _ => false,
        },
        _ => false,
    }
}

/// Whether the argument of `join` is the empty string literal.
pub open spec fn is_empty_str_lit(arg: JoinArg) -> bool {
    match arg {
        JoinArg::StrLit(s) => s@.len() == 0,
        JoinArg::Other => false,
    }
}

/// What the lint reports: the span from the start of `method_span` to the
/// end of `expr_span` when the receiver of `join` is `&[String]` and the
/// separator is `""`, else nothing.
pub open spec fn unnecessary_join_report(
    receiver_ty: TypeShape,
    join_arg: JoinArg,
    expr_span: Span,
    method_span: Span,
) -> Option<Span> {
    if is_ref_to_string_slice(receiver_ty) && is_empty_str_lit(join_arg) {
        Some(Span { lo: method_span.lo, hi: expr_span.hi })
    } else {
        None
    }
}

/// Only a join with the empty string literal is reported, since only then
/// does `collect::<String>()` give the same text: any other separator
/// literal, or a separator that is not a literal, gives no report. The
/// report spans from the `collect` call to the end of the expression.
pub proof fn lemma_join_reported_only_without_separator(
    receiver_ty: TypeShape,
    join_arg: JoinArg,
    expr_span: Span,
    method_span: Span,
)
    ensures
        unnecessary_join_report(receiver_ty, join_arg, expr_span, method_span) matches Some(sp) ==> {
            &&& (join_arg matches JoinArg::StrLit(sep) && sep@ == Seq::<char>::empty())
            &&& sp.lo == method_span.lo
            &&& sp.hi == expr_span.hi
        },
        (join_arg matches JoinArg::StrLit(sep) && sep@.len() > 0) ==> unnecessary_join_report(
            receiver_ty,
            join_arg,
            expr_span,
            method_span,
        ) is None,
        join_arg is Other ==> unnecessary_join_report(receiver_ty, join_arg, expr_span, method_span) is None,
{
}

/// A join of a `&[String]` with the empty string literal is always reported.
pub proof fn lemma_empty_join_of_strings_reported(
    receiver_ty: TypeShape,
    sep: String,
    expr_span: Span,
    method_span: Span,
)
    requires
        receiver_ty matches TypeShape::Ref(inner) && (*inner matches TypeShape::Slice(elem) && *elem is String),
        sep@.len() == 0,
    ensures
        unnecessary_join_report(receiver_ty, JoinArg::StrLit(sep), expr_span, method_span)
            == Some(Span { lo: method_span.lo, hi: expr_span.hi }),
{
}

/// The span reported by the lint when `receiver_ty` (the adjusted type of the
/// receiver of `join`) is `&[String]` and the separator is `""`: from the
/// start of `method_span` (the `collect` call) to the end of the whole
/// expression `expr_span`.
pub fn check_unnecessary_join(
    receiver_ty: &TypeShape,
    join_arg: &JoinArg,
    expr_span: Span,
    method_span: Span,
) -> (report: Option<Span>)
    ensures
        report == unnecessary_join_report(*receiver_ty, *join_arg, expr_span, method_span),
{
    let slice_of_strings = match receiver_ty {
        TypeShape::Ref(inner) => match &**inner {
            TypeShape::Slice(elem) => match &**elem {
                TypeShape::String => true,
                _ => false,
            },
            _ => false,
        },
        _ => false,
    };
    let empty_sep = match join_arg {
        JoinArg::StrLit(s) => s.as_str().is_empty(),
        JoinArg::Other => false,
    };
    if slice_of_strings && empty_sep {
        Some(Span { lo: method_span.lo, hi: expr_span.hi })
    } else {
        None
    }
}

/// The message, help text and replacement of the lint.
pub fn unnecessary_join_texts() -> (texts: (String, String, String))
    ensures
        texts.0@ == "called `.collect<Vec<String>>().join(\"\")` on an iterator"@,
        texts.1@ == "try using"@,
        texts.2@ == "collect::<String>()"@,
{
    (
        String::from_str("called `.collect<Vec<String>>().join(\"\")` on an iterator"),
        String::from_str("try using"),
        String::from_str("collect::<String>()"),
    )
}

} // verus!
