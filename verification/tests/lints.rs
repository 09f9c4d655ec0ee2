use clippy_lintcheck::borrowed_param::{GenericArg, GenericArgs, match_borrows_parameter};
use clippy_lintcheck::casts::{
    CastOperand, CastTarget, CastType, RefCastExpr, RefCastKind, check_cast_abs_to_unsigned,
    check_cast_ref_to_mut, ref_to_mut_message,
};
use clippy_lintcheck::closure_call::{
    AstExpr, AstExprKind, HirBlock, HirStmt, ImmediateCallLint, ResolvedPath, check_block, check_expr,
    called_once_message, count_closure_usage, immediate_call_texts,
};
use clippy_lintcheck::rust_version::{RustVersion, meets_msrv, unsigned_abs_msrv};
use clippy_lintcheck::unnecessary_join::{JoinArg, Span, TypeShape, check_unnecessary_join, unnecessary_join_texts};
use clippy_lintcheck::ReturnVisitor;

fn leaf(kind: AstExprKind) -> AstExpr {
    AstExpr { kind, children: Vec::new() }
}

fn node(kind: AstExprKind, children: Vec<AstExpr>) -> AstExpr {
    AstExpr { kind, children }
}

/// `(|<params>| body)()`
fn immediate_call(has_inputs: bool, body: AstExpr) -> AstExpr {
    let closure = node(AstExprKind::Closure { has_inputs }, vec![body]);
    let paren = node(AstExprKind::Paren, vec![closure]);
    node(AstExprKind::Call, vec![paren])
}

#[test]
fn return_visitor_starts_clear() {
    assert!(!ReturnVisitor::new().found_return);
}

#[test]
fn return_visitor_finds_nested_try() {
    let mut visitor = ReturnVisitor::new();
    let expr = node(
        AstExprKind::Other,
        vec![leaf(AstExprKind::Other), node(AstExprKind::Call, vec![leaf(AstExprKind::Try)])],
    );
    visitor.visit_expr(&expr);
    assert!(visitor.found_return);
}

#[test]
fn return_visitor_without_return() {
    let mut visitor = ReturnVisitor::new();
    let expr = node(AstExprKind::Call, vec![leaf(AstExprKind::Other), leaf(AstExprKind::Paren)]);
    visitor.visit_expr(&expr);
    assert!(!visitor.found_return);
}

#[test]
fn return_visitor_keeps_an_earlier_find() {
    let mut visitor = ReturnVisitor::new();
    visitor.visit_expr(&leaf(AstExprKind::Ret));
    visitor.visit_expr(&leaf(AstExprKind::Other));
    assert!(visitor.found_return);
}

#[test]
fn immediate_closure_call_without_params_suggests_body() {
    let expr = immediate_call(false, leaf(AstExprKind::Other));
    assert_eq!(check_expr(false, &expr), Some(ImmediateCallLint { suggest_body: true }));
}

#[test]
fn immediate_closure_call_with_params_gives_no_suggestion() {
    let expr = immediate_call(true, leaf(AstExprKind::Other));
    assert_eq!(check_expr(false, &expr), Some(ImmediateCallLint { suggest_body: false }));
}

#[test]
fn immediate_closure_with_return_is_not_reported() {
    let body = node(AstExprKind::Other, vec![leaf(AstExprKind::Ret)]);
    assert_eq!(check_expr(false, &immediate_call(false, body)), None);
}

#[test]
fn immediate_closure_in_external_macro_is_not_reported() {
    assert_eq!(check_expr(true, &immediate_call(false, leaf(AstExprKind::Other))), None);
}

#[test]
fn call_without_parentheses_is_not_reported() {
    let closure = node(AstExprKind::Closure { has_inputs: false }, vec![leaf(AstExprKind::Other)]);
    let expr = node(AstExprKind::Call, vec![closure]);
    assert_eq!(check_expr(false, &expr), None);
}

fn path(ident: u64, res: u64) -> ResolvedPath {
    ResolvedPath { first_ident: ident, res }
}

#[test]
fn closure_called_once_after_binding_is_reported() {
    let block = HirBlock {
        stmts: vec![
            HirStmt::Other,
            HirStmt::ClosureBinding { binding: 1 },
            HirStmt::AssignCallResult { callee: path(1, 10) },
        ],
        path_calls: vec![path(1, 10), path(2, 20)],
    };
    assert_eq!(check_block(&block), vec![2]);
}

#[test]
fn closure_called_twice_is_not_reported() {
    let block = HirBlock {
        stmts: vec![HirStmt::ClosureBinding { binding: 1 }, HirStmt::AssignCallResult { callee: path(1, 10) }],
        path_calls: vec![path(1, 10), path(1, 10)],
    };
    assert_eq!(check_block(&block), Vec::<usize>::new());
}

#[test]
fn call_of_another_name_is_not_reported() {
    let block = HirBlock {
        stmts: vec![HirStmt::ClosureBinding { binding: 1 }, HirStmt::AssignCallResult { callee: path(3, 10) }],
        path_calls: vec![path(3, 10)],
    };
    assert_eq!(check_block(&block), Vec::<usize>::new());
}

#[test]
fn two_reports_come_in_order() {
    let block = HirBlock {
        stmts: vec![
            HirStmt::ClosureBinding { binding: 1 },
            HirStmt::AssignCallResult { callee: path(1, 10) },
            HirStmt::ClosureBinding { binding: 2 },
            HirStmt::AssignCallResult { callee: path(2, 20) },
        ],
        path_calls: vec![path(2, 20), path(1, 10)],
    };
    assert_eq!(check_block(&block), vec![1, 3]);
}

#[test]
fn usage_count_compares_ident_and_resolution() {
    let calls = vec![path(1, 10), path(1, 11), path(2, 10), path(1, 10)];
    assert_eq!(count_closure_usage(&calls, path(1, 10)), 2);
    assert_eq!(count_closure_usage(&calls, path(5, 5)), 0);
}

fn int_type(name: &str, signed: bool) -> CastType {
    CastType { name: name.to_string(), is_integral: true, is_signed: signed }
}

fn abs_call(receiver: &str) -> CastOperand {
    CastOperand::MethodCall { method: "abs".to_string(), receiver: receiver.to_string() }
}

#[test]
fn abs_cast_to_unsigned_is_reported() {
    let report = check_cast_abs_to_unsigned(None, &int_type("i32", true), &int_type("u32", false), &abs_call("x"))
        .expect("reported");
    assert_eq!(report.message, "casting the result of `i32::abs()` to u32");
    assert_eq!(report.help, "replace with");
    assert_eq!(report.replacement, "x.unsigned_abs()");
}

#[test]
fn abs_cast_respects_msrv() {
    let old = Some(RustVersion::Normal { major: 1, minor: 50, patch: 9 });
    assert!(check_cast_abs_to_unsigned(old, &int_type("i64", true), &int_type("u64", false), &abs_call("v")).is_none());
    let new = Some(RustVersion::Normal { major: 1, minor: 51, patch: 0 });
    assert!(check_cast_abs_to_unsigned(new, &int_type("i64", true), &int_type("u64", false), &abs_call("v")).is_some());
}

#[test]
fn abs_cast_needs_signed_to_unsigned_and_abs() {
    let from = int_type("i8", true);
    assert!(check_cast_abs_to_unsigned(None, &from, &int_type("i16", true), &abs_call("a")).is_none());
    assert!(check_cast_abs_to_unsigned(None, &int_type("u8", false), &int_type("u16", false), &abs_call("a")).is_none());
    let other = CastOperand::MethodCall { method: "signum".to_string(), receiver: "a".to_string() };
    assert!(check_cast_abs_to_unsigned(None, &from, &int_type("u8", false), &other).is_none());
    assert!(check_cast_abs_to_unsigned(None, &from, &int_type("u8", false), &CastOperand::Other).is_none());
}

#[test]
fn msrv_check_uses_caret_semantics() {
    let lint = unsigned_abs_msrv();
    assert_eq!(lint, RustVersion::Normal { major: 1, minor: 51, patch: 0 });
    assert!(meets_msrv(None, lint));
    assert!(meets_msrv(Some(RustVersion::Normal { major: 1, minor: 60, patch: 0 }), lint));
    assert!(!meets_msrv(Some(RustVersion::Normal { major: 1, minor: 50, patch: 0 }), lint));
    assert!(!meets_msrv(Some(RustVersion::Normal { major: 2, minor: 0, patch: 0 }), lint));
    assert!(!meets_msrv(Some(RustVersion::Beta), lint));
    assert!(meets_msrv(Some(RustVersion::Alpha2), RustVersion::Alpha2));
    let zero = RustVersion::Normal { major: 0, minor: 3, patch: 0 };
    assert!(meets_msrv(Some(RustVersion::Normal { major: 0, minor: 3, patch: 7 }), zero));
    assert!(!meets_msrv(Some(RustVersion::Normal { major: 0, minor: 4, patch: 0 }), zero));
}

fn typed(kind: RefCastKind, is_reference: bool) -> RefCastExpr {
    RefCastExpr { kind, is_reference }
}

#[test]
fn ref_cast_to_mut_is_reported() {
    let r = typed(RefCastKind::Other, true);
    let as_const = typed(RefCastKind::Cast(CastTarget::ConstPtr, Box::new(r)), false);
    let as_mut = typed(RefCastKind::Cast(CastTarget::MutPtr, Box::new(as_const)), false);
    let deref = typed(RefCastKind::Deref(Box::new(as_mut)), false);
    assert!(check_cast_ref_to_mut(&deref));
    assert_eq!(
        ref_to_mut_message(),
        "casting `&T` to `&mut T` may cause undefined behavior, consider instead using an `UnsafeCell`"
    );
}

#[test]
fn raw_pointer_cast_to_mut_is_not_reported() {
    let p = typed(RefCastKind::Other, false);
    let as_const = typed(RefCastKind::Cast(CastTarget::ConstPtr, Box::new(p)), false);
    let as_mut = typed(RefCastKind::Cast(CastTarget::MutPtr, Box::new(as_const)), false);
    let deref = typed(RefCastKind::Deref(Box::new(as_mut)), false);
    assert!(!check_cast_ref_to_mut(&deref));
    let r = typed(RefCastKind::Other, true);
    let as_mut_only = typed(RefCastKind::Cast(CastTarget::MutPtr, Box::new(r)), false);
    assert!(!check_cast_ref_to_mut(&typed(RefCastKind::Deref(Box::new(as_mut_only)), false)));
}

fn string_slice_ref() -> TypeShape {
    TypeShape::Ref(Box::new(TypeShape::Slice(Box::new(TypeShape::String))))
}

#[test]
fn join_with_empty_separator_is_reported() {
    let report = check_unnecessary_join(
        &string_slice_ref(),
        &JoinArg::StrLit(String::new()),
        Span { lo: 0, hi: 40 },
        Span { lo: 12, hi: 20 },
    );
    assert_eq!(report, Some(Span { lo: 12, hi: 40 }));
    let (message, help, replacement) = unnecessary_join_texts();
    assert_eq!(message, "called `.collect<Vec<String>>().join(\"\")` on an iterator");
    assert_eq!(help, "try using");
    assert_eq!(replacement, "collect::<String>()");
}

#[test]
fn join_with_separator_or_other_type_is_not_reported() {
    let spans = (Span { lo: 0, hi: 9 }, Span { lo: 3, hi: 5 });
    assert_eq!(check_unnecessary_join(&string_slice_ref(), &JoinArg::StrLit(", ".to_string()), spans.0, spans.1), None);
    assert_eq!(check_unnecessary_join(&string_slice_ref(), &JoinArg::Other, spans.0, spans.1), None);
    let strs = TypeShape::Ref(Box::new(TypeShape::Slice(Box::new(TypeShape::Other))));
    assert_eq!(check_unnecessary_join(&strs, &JoinArg::StrLit(String::new()), spans.0, spans.1), None);
}

#[test]
fn borrowed_type_parameter_is_found() {
    let span = Span { lo: 4, hi: 8 };
    let args = GenericArgs {
        parenthesized: false,
        args: vec![GenericArg::Lifetime, GenericArg::Type { is_ref: true, span }, GenericArg::Const],
    };
    assert_eq!(match_borrows_parameter(&Some(args)), Some(span));
}

#[test]
fn only_the_first_type_parameter_counts() {
    let args = GenericArgs {
        parenthesized: false,
        args: vec![
            GenericArg::Type { is_ref: false, span: Span { lo: 0, hi: 1 } },
            GenericArg::Type { is_ref: true, span: Span { lo: 2, hi: 3 } },
        ],
    };
    assert_eq!(match_borrows_parameter(&Some(args)), None);
}

#[test]
fn parenthesized_or_missing_arguments_are_skipped() {
    let args = GenericArgs {
        parenthesized: true,
        args: vec![GenericArg::Type { is_ref: true, span: Span { lo: 0, hi: 1 } }],
    };
    assert_eq!(match_borrows_parameter(&Some(args)), None);
    assert_eq!(match_borrows_parameter(&None), None);
}

#[test]
fn redundant_closure_call_texts() {
    let (message, help) = immediate_call_texts();
    assert_eq!(message, "try not to call a closure in the expression where it is declared");
    assert_eq!(help, "try doing something like");
    assert_eq!(called_once_message(), "closure called just once immediately after it was declared");
}
