//! The `redundant_closure_call` lint: closures that are called in the very
//! expression that declares them, and closures that are bound to a name and
//! called once, right after the binding.
use vstd::prelude::*;

verus! {

/// The shape of an expression of the syntax tree, as far as the lint reads it.
///
/// The sub-expressions of a node are its children, in source order:
/// a call has its callee first and then its arguments, a parenthesized
/// expression and a closure have one child each (the inner expression and
/// the body).
#[derive(Clone, Copy, Debug, PartialEq, Eq, Structural)]
pub enum AstExprKind {
    /// `return` or `return value`.
    Ret,
    /// The `?` operator.
    Try,
    /// A call `callee(args..)`.
    Call,
    /// A parenthesized expression `(inner)`.
    Paren,
    /// A closure; `has_inputs` tells whether it declares any parameter.
    Closure { has_inputs: bool },
    /// Any other expression.
    Other,
}

/// An expression of the syntax tree with its sub-expressions.
pub struct AstExpr {
    pub kind: AstExprKind,
    pub children: Vec<AstExpr>,
}

/// Whether `e`, or any expression nested in it, returns early from the
/// enclosing function body (`return` or `?`).
pub open spec fn has_return(e: AstExpr) -> bool
    decreases e,
{
    ||| e.kind is Ret
    ||| e.kind is Try
    ||| any_has_return(e.children@)
}

/// Whether one of the expressions `es`, or an expression nested in one of
/// them, returns early.
pub open spec fn any_has_return(es: Seq<AstExpr>) -> bool
    decreases es,
{
    if es.len() == 0 {
        false
    } else {
        has_return(es.last()) || any_has_return(es.drop_last())
    }
}

/// `any_has_return` holds exactly when one of the expressions returns early.
pub proof fn lemma_any_has_return(es: Seq<AstExpr>)
    ensures
        any_has_return(es) == exists|j: int| 0 <= j < es.len() && #[trigger] has_return(es[j]),
    decreases es.len(),
{
    if es.len() > 0 {
        lemma_any_has_return(es.drop_last());
        if has_return(es.last()) {
            assert(has_return(es[es.len() - 1]));
        }
        if exists|j: int| 0 <= j < es.len() && #[trigger] has_return(es[j]) {
            let j = choose|j: int| 0 <= j < es.len() && #[trigger] has_return(es[j]);
            if j < es.len() - 1 {
                assert(es.drop_last()[j] == es[j]);
            }
        }
    }
}

/// Finds `return` expressions or their equivalents, such as `?`.
pub struct ReturnVisitor {
    pub found_return: bool,
}

impl ReturnVisitor {
    /// A visitor that has not seen any return yet.
    pub fn new() -> (visitor: Self)
        ensures
            !visitor.found_return,
    {
        ReturnVisitor { found_return: false }
    }

    /// Visits `ex` and every expression nested in it; records whether one of
    /// them returns early.
    pub fn visit_expr(&mut self, ex: &AstExpr)
        ensures
            final(self).found_return == (old(self).found_return || has_return(*ex)),
        decreases ex,
    {
        match ex.kind {
            AstExprKind::Ret | AstExprKind::Try => {
                self.found_return = true;
            },
            _ => {},
        }
        let ghost before = self.found_return;
        let n = ex.children.len();
        let mut i: usize = 0;
        while i < n
            invariant
                n == ex.children@.len(),
                0 <= i <= n,
                before == (old(self).found_return || ex.kind is Ret || ex.kind is Try),
                self.found_return == (before || exists|j: int|
                    0 <= j < i && #[trigger] has_return(ex.children@[j])),
            decreases n - i,
        {
            proof {
                assert(decreases_to!(*ex => ex.children));
                assert(decreases_to!(ex.children => ex.children@));
                assert(decreases_to!(ex.children@ => ex.children@[i as int]));
            }
            self.visit_expr(&ex.children[i]);
            assert(self.found_return == (before || exists|j: int|
                0 <= j < i + 1 && #[trigger] has_return(ex.children@[j]))) by {
                if has_return(ex.children@[i as int]) {
                    assert(0 <= i < i + 1);
                }
            }
            i = i + 1;
        }
        proof {
            lemma_any_has_return(ex.children@);
        }
    }
}

/// What the lint reports on a closure called where it is declared.
#[derive(Clone, Copy, Debug, PartialEq, Eq, Structural)]
pub struct ImmediateCallLint {
    /// Whether the report suggests replacing the call by the closure's body;
    /// only done for closures without parameters.
    pub suggest_body: bool,
}

/// The closure of `(closure)(args..)`, when `expr` has that shape.
pub open spec fn called_closure(expr: AstExpr) -> Option<AstExpr> {
    if expr.kind is Call && expr.children@.len() >= 1 {
        let paren = expr.children@[0];
        if paren.kind is Paren && paren.children@.len() >= 1 {
            let closure = paren.children@[0];
            if closure.kind is Closure && closure.children@.len() >= 1 {
                Some(closure)
            } else {
                None
            }
        } else {
            None
        }
    } else {
        None
    }
}

/// The report due on `expr`: a closure in parentheses that is called at
/// once and whose body never returns early, outside external macros.
pub open spec fn spec_check_expr(in_external_macro: bool, expr: AstExpr) -> Option<ImmediateCallLint> {
    if in_external_macro {
        None
    } else {
        match called_closure(expr) {
            Some(closure) => if has_return(closure.children@[0]) {
                None
            } else {
                match closure.kind {
                    AstExprKind::Closure { has_inputs } => Some(ImmediateCallLint { suggest_body: !has_inputs }),
                    _ => None,
                }
            },
            None => None,
        }
    }
}

/// Checks an expression for a closure that is called in the expression that
/// declares it, such as `(|| 42)()`.
pub fn check_expr(in_external_macro: bool, expr: &AstExpr) -> (lint: Option<ImmediateCallLint>)
    ensures
        lint == spec_check_expr(in_external_macro, *expr),
{
    if in_external_macro {
        return None;
    }
    match expr.kind {
        AstExprKind::Call => {},
        _ => return None,
    }
    if expr.children.len() < 1 {
        return None;
    }
    let paren = &expr.children[0];
    match paren.kind {
        AstExprKind::Paren => {},
        _ => return None,
    }
    if paren.children.len() < 1 {
        return None;
    }
    let closure = &paren.children[0];
    let has_inputs = match closure.kind {
        AstExprKind::Closure { has_inputs } => has_inputs,
        _ => return None,
    };
    if closure.children.len() < 1 {
        return None;
    }
    let mut visitor = ReturnVisitor::new();
    visitor.visit_expr(&closure.children[0]);
    if visitor.found_return {
        None
    } else {
        Some(ImmediateCallLint { suggest_body: !has_inputs })
    }
}

/// The lint fires on every call whose callee is a parenthesized closure,
/// however many arguments the call passes, unless the call comes from an
/// external macro or the closure's body returns early; it suggests the body
/// exactly when the closure takes no parameter.
pub proof fn lemma_immediate_call_reported(in_external_macro: bool, expr: AstExpr, has_inputs: bool)
    requires
        expr.kind is Call,
        expr.children@.len() >= 1,
        expr.children@[0].kind is Paren,
        expr.children@[0].children@.len() >= 1,
        expr.children@[0].children@[0].kind == (AstExprKind::Closure { has_inputs }),
        expr.children@[0].children@[0].children@.len() >= 1,
    ensures
        spec_check_expr(in_external_macro, expr) == if in_external_macro
            || has_return(expr.children@[0].children@[0].children@[0]) {
            None
        } else {
            Some(ImmediateCallLint { suggest_body: !has_inputs })
        },
{
}

/// A report is only ever made outside external macros, on a call whose
/// callee is a parenthesized closure with a body that never returns early.
pub proof fn lemma_immediate_call_report_shape(in_external_macro: bool, expr: AstExpr)
    ensures
        spec_check_expr(in_external_macro, expr) is Some ==> {
            &&& !in_external_macro
            &&& expr.kind is Call
            &&& expr.children@.len() >= 1
            &&& expr.children@[0].kind is Paren
            &&& expr.children@[0].children@.len() >= 1
            &&& expr.children@[0].children@[0].kind is Closure
            &&& expr.children@[0].children@[0].children@.len() >= 1
            &&& !has_return(expr.children@[0].children@[0].children@[0])
        },
{
}

/// A statement is only flagged when the statement before it binds a closure
/// to a name, it assigns the result of a call through that same name, and
/// the block calls that closure exactly once; the first statement is never
/// flagged.
pub proof fn lemma_flagged_statement_shape(stmts: Seq<HirStmt>, calls: Seq<ResolvedPath>, j: int)
    ensures
        flags_stmt(stmts, calls, j) ==> {
            &&& 1 <= j < stmts.len()
            &&& stmts[j - 1] is ClosureBinding
            &&& stmts[j] is AssignCallResult
            &&& stmts[j - 1]->binding == stmts[j]->callee.first_ident
            &&& count_calls(calls, stmts[j]->callee) == 1
        },
{
}

/// A path expression resolved by name resolution, as far as the lint compares
/// two of them: the identifier of its first segment and what it resolves to.
#[derive(Clone, Copy, Debug, PartialEq, Eq, Structural)]
pub struct ResolvedPath {
    pub first_ident: u64,
    pub res: u64,
}

/// A statement of a block, as far as the lint reads it.
#[derive(Clone, Copy, Debug, PartialEq, Eq, Structural)]
pub enum HirStmt {
    /// `let name = <closure>;` where the pattern binds `binding`.
    ClosureBinding { binding: u64 },
    /// `<place> = path(..);` where `path` is a resolved path.
    AssignCallResult { callee: ResolvedPath },
    /// Any other statement.
    Other,
}

/// A block: its statements, and the callee of every call anywhere in it
/// (closure bodies included) whose callee is a resolved path.
pub struct HirBlock {
    pub stmts: Vec<HirStmt>,
    pub path_calls: Vec<ResolvedPath>,
}

/// How many of the calls `calls` have `path` as their callee.
pub open spec fn count_calls(calls: Seq<ResolvedPath>, path: ResolvedPath) -> nat
    decreases calls.len(),
{
    if calls.len() == 0 {
        0
    } else {
        count_calls(calls.drop_last(), path) + if calls.last() == path { 1nat } else { 0nat }
    }
}

/// Whether statement `j` of `block` is a call of the closure bound by
/// statement `j - 1`, and that closure is called nowhere else in the block.
pub open spec fn flags_stmt(stmts: Seq<HirStmt>, calls: Seq<ResolvedPath>, j: int) -> bool {
    &&& 1 <= j < stmts.len()
    &&& stmts[j - 1] matches HirStmt::ClosureBinding { binding }
    &&& stmts[j] matches HirStmt::AssignCallResult { callee }
    &&& binding == callee.first_ident
    &&& count_calls(calls, callee) == 1
}

/// The number of calls in `calls` whose callee is `path`.
pub fn count_closure_usage(calls: &Vec<ResolvedPath>, path: ResolvedPath) -> (count: usize)
    ensures
        count == count_calls(calls@, path),
{
    let mut count: usize = 0;
    let mut i: usize = 0;
    while i < calls.len()
        invariant
            0 <= i <= calls@.len(),
            count == count_calls(calls@.take(i as int), path),
            count <= i,
        decreases calls.len() - i,
    {
        assert(calls@.take(i + 1).drop_last() == calls@.take(i as int));
        if calls[i] == path {
            count = count + 1;
        }
        i = i + 1;
    }
    assert(calls@.take(calls@.len() as int) == calls@);
    count
}

/// Indices of the statements that call, once and right after its binding, a
/// closure bound by the previous statement; in increasing order.
pub fn check_block(block: &HirBlock) -> (flagged: Vec<usize>)
    ensures
        forall|k: int| 0 <= k < flagged@.len() ==> flags_stmt(block.stmts@, block.path_calls@, #[trigger] flagged@[k] as int),
        forall|k: int, l: int| 0 <= k < l < flagged@.len() ==> flagged@[k] < flagged@[l],
        forall|j: int| flags_stmt(block.stmts@, block.path_calls@, j) ==> flagged@.contains(j as usize),
{
    let mut flagged: Vec<usize> = Vec::new();
    let n = block.stmts.len();
    let mut j: usize = 1;
    while j < n
        invariant
            n == block.stmts@.len(),
            1 <= j,
            j <= n || n == 0,
            forall|k: int| 0 <= k < flagged@.len() ==> flags_stmt(block.stmts@, block.path_calls@, #[trigger] flagged@[k] as int),
            forall|k: int| 0 <= k < flagged@.len() ==> #[trigger] flagged@[k] < j,
            forall|k: int, l: int| 0 <= k < l < flagged@.len() ==> flagged@[k] < flagged@[l],
            forall|i: int| 1 <= i < j && flags_stmt(block.stmts@, block.path_calls@, i) ==> flagged@.contains(i as usize),
        decreases n - j,
    {
        let ghost old_flagged = flagged@;
        match (block.stmts[j - 1], block.stmts[j]) {
            (HirStmt::ClosureBinding { binding }, HirStmt::AssignCallResult { callee }) => {
                if binding == callee.first_ident && count_closure_usage(&block.path_calls, callee) == 1 {
                    flagged.push(j);
                    assert forall|i: int| 1 <= i < j + 1 && flags_stmt(block.stmts@, block.path_calls@, i)
                        implies flagged@.contains(i as usize) by {
                        if i < j {
                            assert(old_flagged.contains(i as usize));
                            let k = choose|k: int| 0 <= k < old_flagged.len() && old_flagged[k] == i as usize;
                            assert(flagged@[k] == i as usize);
                        } else {
                            assert(flagged@[flagged@.len() - 1] == j);
                        }
                    }
                }
            },
            _ => {},
        }
        j = j + 1;
    }
    flagged
}

/// The message and the help text of the report on a closure called in the
/// expression that declares it; the help text introduces the suggested
/// replacement, the closure's body.
pub fn immediate_call_texts() -> (texts: (String, String))
    ensures
        texts.0@ == "try not to call a closure in the expression where it is declared"@,
        texts.1@ == "try doing something like"@,
{
    (
        String::from_str("try not to call a closure in the expression where it is declared"),
        String::from_str("try doing something like"),
    )
}

/// The message of the report on each statement that `check_block` flags.
pub fn called_once_message() -> (message: String)
    ensures
        message@ == "closure called just once immediately after it was declared"@,
{
    String::from_str("closure called just once immediately after it was declared")
}

} // verus!
