use vstd::prelude::*;

use crate::ast::ASTExpression;
use crate::ast::AstModel;
use crate::ast::view_expressions;
use crate::errors::SyntaxError;
use crate::lexer::Token;
use crate::lexer::TokenModel;
use crate::lexer::view_tokens;

verus! {

/// What kind of value an expression produces.  Operators demand operands of
/// one fixed category and contribute a value of one fixed category to their
/// parent.
#[derive(Clone, Copy, Debug, PartialEq, Eq, Structural)]
pub enum ValueCategory {
    Number,
    Bool,
    Range,
}

/// One declared name together with the category of value it holds, where
/// that category is known.  A `for` index is known to hold a number; a `var`
/// target's category is left open, since its initializer may refer to the
/// name itself.
pub struct Binding {
    pub name: Seq<char>,
    pub category: Option<ValueCategory>,
}

// ---------------------------------------------------------------------------
// The scope, at the specification level
// ---------------------------------------------------------------------------

pub open spec fn scope_contains(scope: Seq<Binding>, name: Seq<char>) -> bool {
    exists|k: int| 0 <= k < scope.len() && scope[k].name == name
}

/// The category recorded for `name` by its most recent declaration.
pub open spec fn scope_category(scope: Seq<Binding>, name: Seq<char>) -> Option<ValueCategory>
    decreases scope.len(),
{
    if scope.len() == 0 {
        None
    } else if scope.last().name == name {
        scope.last().category
    } else {
        scope_category(scope.drop_last(), name)
    }
}

/// The scope without the most recent declaration of `name`.
pub open spec fn scope_remove(scope: Seq<Binding>, name: Seq<char>) -> Seq<Binding>
    decreases scope.len(),
{
    if scope.len() == 0 {
        scope
    } else if scope.last().name == name {
        scope.drop_last()
    } else {
        scope_remove(scope.drop_last(), name).push(scope.last())
    }
}

// ---------------------------------------------------------------------------
// Operator tables and the constraint stack
// ---------------------------------------------------------------------------

pub open spec fn is_operator_token(t: TokenModel) -> bool {
    ||| t is Bigger
    ||| t is Less
    ||| t is Eq
    ||| t is Plus
    ||| t is Minus
    ||| t is Divide
    ||| t is Multiply
    ||| t is BinaryAnd
    ||| t is BinaryOr
    ||| t is Range
}

/// The category every operand of the operator must produce.
pub open spec fn operator_operand_category(t: TokenModel) -> ValueCategory {
    match t {
        TokenModel::BinaryAnd => ValueCategory::Bool,
        TokenModel::BinaryOr => ValueCategory::Bool,
        _ => ValueCategory::Number,
    }
}

/// The category of value the operator itself produces.
pub open spec fn operator_yield_category(t: TokenModel) -> ValueCategory {
    match t {
        TokenModel::Plus => ValueCategory::Number,
        TokenModel::Minus => ValueCategory::Number,
        TokenModel::Multiply => ValueCategory::Number,
        TokenModel::Divide => ValueCategory::Number,
        TokenModel::Range => ValueCategory::Range,
        _ => ValueCategory::Bool,
    }
}

/// Whether a value of category `c` is welcome under the active constraint:
/// either no constraint is active, or the innermost one asks for `c`.
pub open spec fn admits(cons: Seq<ValueCategory>, c: ValueCategory) -> bool {
    cons.len() == 0 || cons.last() == c
}

/// The AST node built for a binary operator from its two parsed operands.
pub open spec fn binary_node(t: TokenModel, left: AstModel, right: AstModel) -> AstModel {
    match t {
        TokenModel::Bigger => AstModel::BiggerExpression {
            left: Box::new(left),
            right: Box::new(right),
        },
        TokenModel::Less => AstModel::LessExpression {
            left: Box::new(left),
            right: Box::new(right),
        },
        TokenModel::Eq => AstModel::EqExpression { left: Box::new(left), right: Box::new(right) },
        TokenModel::Plus => AstModel::PlusExpression {
            left: Box::new(left),
            right: Box::new(right),
        },
        TokenModel::Minus => AstModel::MinusExpression {
            left: Box::new(left),
            right: Box::new(right),
        },
        TokenModel::Multiply => AstModel::MultiplyExpression {
            left: Box::new(left),
            right: Box::new(right),
        },
        TokenModel::Divide => AstModel::DivideExpression {
            left: Box::new(left),
            right: Box::new(right),
        },
        TokenModel::BinaryAnd => AstModel::BinaryAndExpression {
            left: Box::new(left),
            right: Box::new(right),
        },
        TokenModel::BinaryOr => AstModel::BinaryOrExpression {
            left: Box::new(left),
            right: Box::new(right),
        },
        _ => AstModel::RangeDefinition { start: Box::new(left), end: Box::new(right) },
    }
}

// ---------------------------------------------------------------------------
// The parser, at the specification level
// ---------------------------------------------------------------------------

/// Outcome of reading one expression at a position: the node, the position
/// just past it and the scope it leaves behind, or the reason it fails.
pub enum PopOutcome {
    Parsed { expr: AstModel, next: int, scope: Seq<Binding> },
    Failed { kind: SyntaxError },
}

/// Clamps a follow-up position into `lo .. len`.  The parser always moves
/// forward (see `pop_result`'s cursor bound, established by every
/// production), so the clamp never alters an actual parse; it only makes
/// termination of the defining recursion evident.
pub open spec fn bounded_next(lo: int, j: int, len: int) -> int {
    let a = if j < lo {
        lo
    } else {
        j
    };
    if a > len {
        len
    } else {
        a
    }
}

/// Reads the expression that starts at position `i`, trying the grammar
/// productions in their fixed priority order:
///
/// 1. binders and control (`for`, `if`),
/// 2. binding mutation (`var`, `set`),
/// 3. binary operators (which push their operand category),
/// 4. brackets and negation,
/// 5. literals and name references.
///
/// `scope` holds the declared names; `cons` is the stack of operand
/// categories demanded by the enclosing operators, its last element the
/// innermost.  A `var` declares its name before its value is read, so a
/// self-referential initializer is accepted; a `for` removes its index as
/// soon as its body is read, restoring the enclosing scope.
pub open spec fn spec_pop_expression(
    toks: Seq<TokenModel>,
    i: int,
    scope: Seq<Binding>,
    cons: Seq<ValueCategory>,
) -> PopOutcome
    decreases toks.len() - i when 0 <= i <= toks.len()
{
    if i >= toks.len() {
        PopOutcome::Failed { kind: SyntaxError::UnexpectedToken }
    } else {
        let t = toks[i];
        match t {
            TokenModel::For => {
                if i + 1 >= toks.len() {
                    PopOutcome::Failed { kind: SyntaxError::UnexpectedToken }
                } else {
                    match toks[i + 1] {
                        TokenModel::Name(nm) => {
                            if scope_contains(scope, nm) {
                                PopOutcome::Failed { kind: SyntaxError::RedeclaredVariable }
                            } else {
                                match spec_pop_expression(toks, i + 2, scope, cons) {
                                    PopOutcome::Failed { kind } => PopOutcome::Failed { kind },
                                    PopOutcome::Parsed { expr: range_e, next: j0, scope: s1 } => {
                                        let j = bounded_next(i + 3, j0, toks.len() as int);
                                        let s2 = if scope_contains(s1, nm) {
                                            s1
                                        } else {
                                            s1.push(
                                                Binding {
                                                    name: nm,
                                                    category: Some(ValueCategory::Number),
                                                },
                                            )
                                        };
                                        match spec_pop_expression(toks, j, s2, cons) {
                                            PopOutcome::Failed { kind } => PopOutcome::Failed {
                                                kind,
                                            },
                                            PopOutcome::Parsed {
                                                expr: body_e,
                                                next: j1,
                                                scope: s3,
                                            } => PopOutcome::Parsed {
                                                expr: AstModel::ForDefinition {
                                                    index: nm,
                                                    range: Box::new(range_e),
                                                    body: Box::new(body_e),
                                                },
                                                next: j1,
                                                scope: scope_remove(s3, nm),
                                            },
                                        }
                                    },
                                }
                            }
                        },
                        _ => PopOutcome::Failed { kind: SyntaxError::UnexpectedToken },
                    }
                }
            },
            TokenModel::If => {
                match spec_pop_expression(toks, i + 1, scope, cons) {
                    PopOutcome::Failed { kind } => PopOutcome::Failed { kind },
                    PopOutcome::Parsed { expr: cond_e, next: j0, scope: s1 } => {
                        let j = bounded_next(i + 2, j0, toks.len() as int);
                        match spec_pop_expression(toks, j, s1, cons) {
                            PopOutcome::Failed { kind } => PopOutcome::Failed { kind },
                            PopOutcome::Parsed { expr: then_e, next: j1, scope: s2 } => {
                                let k = bounded_next(j + 1, j1, toks.len() as int);
                                match spec_pop_expression(toks, k, s2, cons) {
                                    PopOutcome::Failed { kind } => PopOutcome::Failed { kind },
                                    PopOutcome::Parsed { expr: else_e, next: j2, scope: s3 } => {
                                        PopOutcome::Parsed {
                                            expr: AstModel::IFDefinition {
                                                condition: Box::new(cond_e),
                                                then_clause: Box::new(then_e),
                                                else_clause: Box::new(else_e),
                                            },
                                            next: j2,
                                            scope: s3,
                                        }
                                    },
                                }
                            },
                        }
                    },
                }
            },
            TokenModel::Var => {
                if i + 1 >= toks.len() {
                    PopOutcome::Failed { kind: SyntaxError::UnexpectedToken }
                } else {
                    match toks[i + 1] {
                        TokenModel::Name(nm) => {
                            if scope_contains(scope, nm) {
                                PopOutcome::Failed { kind: SyntaxError::RedeclaredVariable }
                            } else {
                                let s1 = scope.push(Binding { name: nm, category: None });
                                match spec_pop_expression(toks, i + 2, s1, cons) {
                                    PopOutcome::Failed { kind } => PopOutcome::Failed { kind },
                                    PopOutcome::Parsed { expr: v_e, next: j, scope: s2 } => {
                                        PopOutcome::Parsed {
                                            expr: AstModel::VarDefinition {
                                                name: nm,
                                                value: Box::new(v_e),
                                            },
                                            next: j,
                                            scope: s2,
                                        }
                                    },
                                }
                            }
                        },
                        _ => PopOutcome::Failed { kind: SyntaxError::UnexpectedToken },
                    }
                }
            },
            TokenModel::SetKw => {
                if i + 1 >= toks.len() {
                    PopOutcome::Failed { kind: SyntaxError::UnexpectedToken }
                } else {
                    match toks[i + 1] {
                        TokenModel::Name(nm) => {
                            if !scope_contains(scope, nm) {
                                PopOutcome::Failed { kind: SyntaxError::UndeclaredVariable }
                            } else {
                                match spec_pop_expression(toks, i + 2, scope, cons) {
                                    PopOutcome::Failed { kind } => PopOutcome::Failed { kind },
                                    PopOutcome::Parsed { expr: v_e, next: j, scope: s1 } => {
                                        PopOutcome::Parsed {
                                            expr: AstModel::SetDefinition {
                                                name: nm,
                                                new_value: Box::new(v_e),
                                            },
                                            next: j,
                                            scope: s1,
                                        }
                                    },
                                }
                            }
                        },
                        _ => PopOutcome::Failed { kind: SyntaxError::UnexpectedToken },
                    }
                }
            },
            TokenModel::Bigger | TokenModel::Less | TokenModel::Eq | TokenModel::Plus
                | TokenModel::Minus | TokenModel::Divide | TokenModel::Multiply
                | TokenModel::BinaryAnd | TokenModel::BinaryOr | TokenModel::Range => {
                if !admits(cons, operator_yield_category(t)) {
                    PopOutcome::Failed { kind: SyntaxError::TypeMismatch }
                } else {
                    let cons2 = cons.push(operator_operand_category(t));
                    match spec_pop_expression(toks, i + 1, scope, cons2) {
                        PopOutcome::Failed { kind } => PopOutcome::Failed { kind },
                        PopOutcome::Parsed { expr: l_e, next: j0, scope: s1 } => {
                            let j = bounded_next(i + 2, j0, toks.len() as int);
                            match spec_pop_expression(toks, j, s1, cons2) {
                                PopOutcome::Failed { kind } => PopOutcome::Failed { kind },
                                PopOutcome::Parsed { expr: r_e, next: j1, scope: s2 } => {
                                    PopOutcome::Parsed {
                                        expr: binary_node(t, l_e, r_e),
                                        next: j1,
                                        scope: s2,
                                    }
                                },
                            }
                        },
                    }
                }
            },
            TokenModel::OpenBracket => {
                match spec_pop_expression(toks, i + 1, scope, cons) {
                    PopOutcome::Failed { kind } => PopOutcome::Failed { kind },
                    PopOutcome::Parsed { expr: e, next: j0, scope: s1 } => {
                        let j = bounded_next(i + 2, j0, toks.len() as int);
                        if j < toks.len() && toks[j] is CloseBracket {
                            PopOutcome::Parsed { expr: e, next: j + 1, scope: s1 }
                        } else {
                            PopOutcome::Failed { kind: SyntaxError::UnterminatedBracket }
                        }
                    },
                }
            },
            TokenModel::BinaryNeg => {
                if !admits(cons, ValueCategory::Bool) {
                    PopOutcome::Failed { kind: SyntaxError::TypeMismatch }
                } else {
                    match spec_pop_expression(toks, i + 1, scope, cons.push(ValueCategory::Bool)) {
                        PopOutcome::Failed { kind } => PopOutcome::Failed { kind },
                        PopOutcome::Parsed { expr: e, next: j, scope: s1 } => PopOutcome::Parsed {
                            expr: AstModel::BinaryNegExpression(Box::new(e)),
                            next: j,
                            scope: s1,
                        },
                    }
                }
            },
            TokenModel::Number(x) => {
                if admits(cons, ValueCategory::Number) {
                    PopOutcome::Parsed { expr: AstModel::NumberLiteral(x), next: i + 1, scope }
                } else {
                    PopOutcome::Failed { kind: SyntaxError::TypeMismatch }
                }
            },
            TokenModel::Bool(b) => {
                if admits(cons, ValueCategory::Bool) {
                    PopOutcome::Parsed { expr: AstModel::BoolLiteral(b), next: i + 1, scope }
                } else {
                    PopOutcome::Failed { kind: SyntaxError::TypeMismatch }
                }
            },
            TokenModel::Name(nm) => {
                if !scope_contains(scope, nm) {
                    PopOutcome::Failed { kind: SyntaxError::UndeclaredVariable }
                } else {
                    match scope_category(scope, nm) {
                        Some(c) => {
                            if admits(cons, c) {
                                PopOutcome::Parsed {
                                    expr: AstModel::NameReference(nm),
                                    next: i + 1,
                                    scope,
                                }
                            } else {
                                PopOutcome::Failed { kind: SyntaxError::UndeclaredVariable }
                            }
                        },
                        None => PopOutcome::Parsed {
                            expr: AstModel::NameReference(nm),
                            next: i + 1,
                            scope,
                        },
                    }
                }
            },
            _ => PopOutcome::Failed { kind: SyntaxError::UnexpectedToken },
        }
    }
}

/// Tokens the parser works on: the token sequence with whitespace removed.
pub open spec fn strip_spaces(toks: Seq<TokenModel>) -> Seq<TokenModel>
    decreases toks.len(),
{
    if toks.len() == 0 {
        Seq::empty()
    } else {
        let rest = strip_spaces(toks.drop_last());
        if toks.last() is Space {
            rest
        } else {
            rest.push(toks.last())
        }
    }
}

/// Reads top-level expressions from position `i` until the tokens are
/// exhausted, threading the scope from one statement to the next.  The
/// constraint stack is empty at top level.
pub open spec fn spec_parse_from(toks: Seq<TokenModel>, i: int, scope: Seq<Binding>) -> Result<
    Seq<AstModel>,
    SyntaxError,
>
    decreases toks.len() - i when 0 <= i <= toks.len()
{
    if i >= toks.len() {
        Ok(Seq::empty())
    } else {
        match spec_pop_expression(toks, i, scope, Seq::empty()) {
            PopOutcome::Failed { kind } => Err(kind),
            PopOutcome::Parsed { expr, next, scope: s1 } => {
                let j = bounded_next(i + 1, next, toks.len() as int);
                match spec_parse_from(toks, j, s1) {
                    Ok(rest) => Ok(seq![expr] + rest),
                    Err(e) => Err(e),
                }
            },
        }
    }
}

/// The meaning of a whole token sequence: whitespace is stripped, then
/// expressions are read left to right, starting from an empty scope.
pub open spec fn spec_parse(toks: Seq<TokenModel>) -> Result<Seq<AstModel>, SyntaxError> {
    spec_parse_from(strip_spaces(toks), 0, Seq::empty())
}

// ---------------------------------------------------------------------------
// Facts about the scope operations
// ---------------------------------------------------------------------------

/// No name is declared twice.  Every parse that starts from a distinct
/// scope keeps it so, since a name is only pushed when it is absent.
pub open spec fn scope_distinct(s: Seq<Binding>) -> bool {
    forall|j: int, k: int| 0 <= j < k < s.len() ==> s[j].name != s[k].name
}

/// Removing one name never invents another: every name in the result was
/// in the scope.
proof fn lemma_scope_remove_subset(s: Seq<Binding>, name: Seq<char>, nm: Seq<char>)
    requires
        scope_contains(scope_remove(s, name), nm),
    ensures
        scope_contains(s, nm),
    decreases s.len(),
{
    if s.len() > 0 {
        if s.last().name == name {
            let k = choose|k: int|
                0 <= k < s.drop_last().len() && s.drop_last()[k].name == nm;
            assert(s[k].name == nm);
        } else {
            let r = scope_remove(s.drop_last(), name);
            let k = choose|k: int| 0 <= k < r.push(s.last()).len() && r.push(s.last())[k].name == nm;
            if k < r.len() {
                lemma_scope_remove_subset(s.drop_last(), name, nm);
                let k2 = choose|k2: int|
                    0 <= k2 < s.drop_last().len() && s.drop_last()[k2].name == nm;
                assert(s[k2].name == nm);
            } else {
                assert(s[s.len() - 1].name == nm);
            }
        }
    }
}

/// A name other than the removed one stays in scope.
proof fn lemma_scope_remove_keeps_other(s: Seq<Binding>, name: Seq<char>, nm: Seq<char>)
    requires
        nm != name,
        scope_contains(s, nm),
    ensures
        scope_contains(scope_remove(s, name), nm),
    decreases s.len(),
{
    let k = choose|k: int| 0 <= k < s.len() && s[k].name == nm;
    if s.last().name == name {
        assert(s.drop_last()[k].name == nm);
    } else {
        let r = scope_remove(s.drop_last(), name);
        if k == s.len() - 1 {
            assert(r.push(s.last())[r.len() as int].name == nm);
        } else {
            assert(s.drop_last()[k].name == nm);
            lemma_scope_remove_keeps_other(s.drop_last(), name, nm);
            let k2 = choose|k2: int| 0 <= k2 < r.len() && r[k2].name == nm;
            assert(r.push(s.last())[k2].name == nm);
        }
    }
}

/// On a distinct scope, removal takes the name out entirely and keeps the
/// scope distinct.
proof fn lemma_scope_remove_distinct(s: Seq<Binding>, name: Seq<char>)
    requires
        scope_distinct(s),
    ensures
        !scope_contains(scope_remove(s, name), name),
        scope_distinct(scope_remove(s, name)),
    decreases s.len(),
{
    if s.len() > 0 {
        assert(scope_distinct(s.drop_last()));
        if s.last().name == name {
            if scope_contains(s.drop_last(), name) {
                let k = choose|k: int|
                    0 <= k < s.drop_last().len() && s.drop_last()[k].name == name;
                assert(s[k].name == s[s.len() - 1].name);
                assert(false);
            }
        } else {
            lemma_scope_remove_distinct(s.drop_last(), name);
            let r = scope_remove(s.drop_last(), name);
            let p = r.push(s.last());
            assert forall|j: int, k: int| 0 <= j < k < p.len() implies p[j].name != p[k].name by {
                if k == p.len() - 1 {
                    if p[j].name == s.last().name {
                        lemma_scope_remove_subset(s.drop_last(), name, p[j].name);
                        let k2 = choose|k2: int|
                            0 <= k2 < s.drop_last().len() && s.drop_last()[k2].name == p[j].name;
                        assert(s[k2].name == s[s.len() - 1].name);
                        assert(false);
                    }
                }
            }
            if scope_contains(p, name) {
                let k = choose|k: int| 0 <= k < p.len() && p[k].name == name;
                assert(k < r.len());
            }
        }
    }
}

/// The category a lookup reports is the one recorded at the most recent
/// declaration.
proof fn lemma_scope_category_at(s: Seq<Binding>, name: Seq<char>, k: int)
    requires
        0 <= k < s.len(),
        s[k].name == name,
        forall|j: int| k < j < s.len() ==> s[j].name != name,
    ensures
        scope_category(s, name) == s[k].category,
    decreases s.len(),
{
    if k < s.len() - 1 {
        lemma_scope_category_at(s.drop_last(), name, k);
    }
}

/// Removing `name` removes exactly the entry of its most recent
/// declaration.
proof fn lemma_scope_remove_at(s: Seq<Binding>, name: Seq<char>, k: int)
    requires
        0 <= k < s.len(),
        s[k].name == name,
        forall|j: int| k < j < s.len() ==> s[j].name != name,
    ensures
        scope_remove(s, name) == s.remove(k),
    decreases s.len(),
{
    if k == s.len() - 1 {
        assert(scope_remove(s, name) =~= s.remove(k));
    } else {
        lemma_scope_remove_at(s.drop_last(), name, k);
        assert(scope_remove(s, name) =~= s.remove(k));
    }
}

/// A name in scope before an expression is parsed is still in scope after
/// it: `var` only adds names, and a `for` removes only its own index, which
/// was absent before.
pub proof fn lemma_pop_keeps_name(
    toks: Seq<TokenModel>,
    i: int,
    scope: Seq<Binding>,
    cons: Seq<ValueCategory>,
    nm: Seq<char>,
)
    requires
        0 <= i <= toks.len(),
        scope_contains(scope, nm),
    ensures
        spec_pop_expression(toks, i, scope, cons) matches PopOutcome::Parsed { scope: s2, .. }
            ==> scope_contains(s2, nm),
    decreases toks.len() - i,
{
    if i >= toks.len() {
    } else {
        let t = toks[i];
        let len = toks.len() as int;
        match t {
            TokenModel::For => {
                if i + 1 < toks.len() && toks[i + 1] is Name {
                    let index = toks[i + 1]->Name_0;
                    if !scope_contains(scope, index) {
                        lemma_pop_keeps_name(toks, i + 2, scope, cons, nm);
                        if let PopOutcome::Parsed { next: j0, scope: s1, .. } = spec_pop_expression(
                            toks, i + 2, scope, cons) {
                            let j = bounded_next(i + 3, j0, len);
                            let s2 = if scope_contains(s1, index) {
                                s1
                            } else {
                                s1.push(Binding { name: index, category: Some(ValueCategory::Number) })
                            };
                            assert(scope_contains(s1, nm) ==> scope_contains(s2, nm)) by {
                                if scope_contains(s1, nm) && !scope_contains(s1, index) {
                                    let k = choose|k: int|
                                        0 <= k < s1.len() && s1[k].name == nm;
                                    assert(s2[k].name == nm);
                                }
                            }
                            if scope_contains(s1, nm) {
                                lemma_pop_keeps_name(toks, j, s2, cons, nm);
                                if let PopOutcome::Parsed { scope: s3, .. } = spec_pop_expression(toks, j, s2, cons) {
                                    assert(nm != index);
                                    lemma_scope_remove_keeps_other(s3, index, nm);
                                }
                            }
                        }
                    }
                }
            },
            TokenModel::If => {
                lemma_pop_keeps_name(toks, i + 1, scope, cons, nm);
                if let PopOutcome::Parsed { next: j0, scope: s1, .. } = spec_pop_expression(
                    toks, i + 1, scope, cons) {
                    let j = bounded_next(i + 2, j0, len);
                    if scope_contains(s1, nm) {
                        lemma_pop_keeps_name(toks, j, s1, cons, nm);
                        if let PopOutcome::Parsed { next: j1, scope: s2, .. } = spec_pop_expression(
                            toks, j, s1, cons) {
                            let k = bounded_next(j + 1, j1, len);
                            if scope_contains(s2, nm) {
                                lemma_pop_keeps_name(toks, k, s2, cons, nm);
                            }
                        }
                    }
                }
            },
            TokenModel::Var => {
                if i + 1 < toks.len() && toks[i + 1] is Name {
                    let vn = toks[i + 1]->Name_0;
                    if !scope_contains(scope, vn) {
                        let s1 = scope.push(Binding { name: vn, category: None });
                        assert(scope_contains(s1, nm)) by {
                            let k = choose|k: int| 0 <= k < scope.len() && scope[k].name == nm;
                            assert(s1[k].name == nm);
                        }
                        lemma_pop_keeps_name(toks, i + 2, s1, cons, nm);
                    }
                }
            },
            TokenModel::SetKw => {
                if i + 1 < toks.len() && toks[i + 1] is Name {
                    lemma_pop_keeps_name(toks, i + 2, scope, cons, nm);
                }
            },
            TokenModel::Bigger | TokenModel::Less | TokenModel::Eq | TokenModel::Plus
                | TokenModel::Minus | TokenModel::Divide | TokenModel::Multiply
                | TokenModel::BinaryAnd | TokenModel::BinaryOr | TokenModel::Range => {
                let cons2 = cons.push(operator_operand_category(t));
                lemma_pop_keeps_name(toks, i + 1, scope, cons2, nm);
                if let PopOutcome::Parsed { next: j0, scope: s1, .. } = spec_pop_expression(
                    toks, i + 1, scope, cons2) {
                    let j = bounded_next(i + 2, j0, len);
                    if scope_contains(s1, nm) {
                        lemma_pop_keeps_name(toks, j, s1, cons2, nm);
                    }
                }
            },
            TokenModel::OpenBracket => {
                lemma_pop_keeps_name(toks, i + 1, scope, cons, nm);
            },
            TokenModel::BinaryNeg => {
                lemma_pop_keeps_name(toks, i + 1, scope, cons.push(ValueCategory::Bool), nm);
            },
            _ => {},
        }
    }
}

/// Parsing keeps the scope free of duplicate declarations.
pub proof fn lemma_pop_scope_distinct(
    toks: Seq<TokenModel>,
    i: int,
    scope: Seq<Binding>,
    cons: Seq<ValueCategory>,
)
    requires
        0 <= i <= toks.len(),
        scope_distinct(scope),
    ensures
        spec_pop_expression(toks, i, scope, cons) matches PopOutcome::Parsed { scope: s2, .. }
            ==> scope_distinct(s2),
    decreases toks.len() - i,
{
    if i >= toks.len() {
    } else {
        let t = toks[i];
        let len = toks.len() as int;
        match t {
            TokenModel::For => {
                if i + 1 < toks.len() && toks[i + 1] is Name {
                    let index = toks[i + 1]->Name_0;
                    if !scope_contains(scope, index) {
                        lemma_pop_scope_distinct(toks, i + 2, scope, cons);
                        if let PopOutcome::Parsed { next: j0, scope: s1, .. } = spec_pop_expression(
                            toks, i + 2, scope, cons) {
                            let j = bounded_next(i + 3, j0, len);
                            let s2 = if scope_contains(s1, index) {
                                s1
                            } else {
                                s1.push(Binding { name: index, category: Some(ValueCategory::Number) })
                            };
                            assert(scope_distinct(s2)) by {
                                if !scope_contains(s1, index) {
                                    assert forall|a: int, b: int| 0 <= a < b < s2.len() implies
                                        s2[a].name != s2[b].name by {
                                        if b == s2.len() - 1 {
                                            assert(!(s1[a].name == index));
                                        }
                                    }
                                }
                            }
                            lemma_pop_scope_distinct(toks, j, s2, cons);
                            if let PopOutcome::Parsed { scope: s3, .. } = spec_pop_expression(toks, j, s2, cons) {
                                lemma_scope_remove_distinct(s3, index);
                            }
                        }
                    }
                }
            },
            TokenModel::If => {
                lemma_pop_scope_distinct(toks, i + 1, scope, cons);
                if let PopOutcome::Parsed { next: j0, scope: s1, .. } = spec_pop_expression(
                    toks, i + 1, scope, cons) {
                    let j = bounded_next(i + 2, j0, len);
                    if scope_distinct(s1) {
                        lemma_pop_scope_distinct(toks, j, s1, cons);
                        if let PopOutcome::Parsed { next: j1, scope: s2, .. } = spec_pop_expression(
                            toks, j, s1, cons) {
                            let k = bounded_next(j + 1, j1, len);
                            if scope_distinct(s2) {
                                lemma_pop_scope_distinct(toks, k, s2, cons);
                            }
                        }
                    }
                }
            },
            TokenModel::Var => {
                if i + 1 < toks.len() && toks[i + 1] is Name {
                    let vn = toks[i + 1]->Name_0;
                    if !scope_contains(scope, vn) {
                        let s1 = scope.push(Binding { name: vn, category: None });
                        assert(scope_distinct(s1)) by {
                            assert forall|a: int, b: int| 0 <= a < b < s1.len() implies s1[a].name
                                != s1[b].name by {
                                if b == s1.len() - 1 {
                                    assert(!(scope[a].name == vn));
                                }
                            }
                        }
                        lemma_pop_scope_distinct(toks, i + 2, s1, cons);
                    }
                }
            },
            TokenModel::SetKw => {
                if i + 1 < toks.len() && toks[i + 1] is Name {
                    lemma_pop_scope_distinct(toks, i + 2, scope, cons);
                }
            },
            TokenModel::Bigger | TokenModel::Less | TokenModel::Eq | TokenModel::Plus
                | TokenModel::Minus | TokenModel::Divide | TokenModel::Multiply
                | TokenModel::BinaryAnd | TokenModel::BinaryOr | TokenModel::Range => {
                let cons2 = cons.push(operator_operand_category(t));
                lemma_pop_scope_distinct(toks, i + 1, scope, cons2);
                if let PopOutcome::Parsed { next: j0, scope: s1, .. } = spec_pop_expression(
                    toks, i + 1, scope, cons2) {
                    let j = bounded_next(i + 2, j0, len);
                    if scope_distinct(s1) {
                        lemma_pop_scope_distinct(toks, j, s1, cons2);
                    }
                }
            },
            TokenModel::OpenBracket => {
                lemma_pop_scope_distinct(toks, i + 1, scope, cons);
            },
            TokenModel::BinaryNeg => {
                lemma_pop_scope_distinct(toks, i + 1, scope, cons.push(ValueCategory::Bool));
            },
            _ => {},
        }
    }
}

/// A `for` leaves its index out of scope: after the loop's subtree is
/// parsed, the index name is gone, and a later bare reference to it fails.
pub proof fn lemma_for_index_leaves_scope(
    toks: Seq<TokenModel>,
    i: int,
    scope: Seq<Binding>,
    cons: Seq<ValueCategory>,
)
    requires
        0 <= i < toks.len(),
        toks[i] is For,
        scope_distinct(scope),
    ensures
        spec_pop_expression(toks, i, scope, cons) matches PopOutcome::Parsed {
            expr: AstModel::ForDefinition { index, range, body },
            scope: s2,
            ..
        } ==> !scope_contains(s2, index),
{
    if i + 1 < toks.len() && toks[i + 1] is Name {
        let index = toks[i + 1]->Name_0;
        let len = toks.len() as int;
        if !scope_contains(scope, index) {
            lemma_pop_scope_distinct(toks, i + 2, scope, cons);
            if let PopOutcome::Parsed { next: j0, scope: s1, .. } = spec_pop_expression(
                toks, i + 2, scope, cons) {
                let j = bounded_next(i + 3, j0, len);
                let s2 = if scope_contains(s1, index) {
                    s1
                } else {
                    s1.push(Binding { name: index, category: Some(ValueCategory::Number) })
                };
                if scope_distinct(s1) {
                    assert(scope_distinct(s2)) by {
                        if !scope_contains(s1, index) {
                            assert forall|a: int, b: int| 0 <= a < b < s2.len() implies s2[a].name
                                != s2[b].name by {
                                if b == s2.len() - 1 {
                                    assert(!(s1[a].name == index));
                                }
                            }
                        }
                    }
                    lemma_pop_scope_distinct(toks, j, s2, cons);
                    if let PopOutcome::Parsed { scope: s3, .. } = spec_pop_expression(toks, j, s2, cons) {
                        if scope_distinct(s3) {
                            lemma_scope_remove_distinct(s3, index);
                        }
                    }
                }
            }
        }
    }
}

/// Parsing is deterministic: equal token sequences parse to equal outcomes,
/// every time.
pub proof fn lemma_parse_deterministic(t1: Seq<TokenModel>, t2: Seq<TokenModel>)
    requires
        t1 == t2,
    ensures
        spec_parse(t1) == spec_parse(t2),
{
}

// ---------------------------------------------------------------------------
// The executable parser
// ---------------------------------------------------------------------------

/// One declared name as the parser stores it.
pub struct ScopeEntry {
    pub name: String,
    pub category: Option<ValueCategory>,
}

impl View for ScopeEntry {
    type V = Binding;

    open spec fn view(&self) -> Binding {
        Binding { name: self.name@, category: self.category }
    }
}

pub open spec fn view_scope(s: Seq<ScopeEntry>) -> Seq<Binding> {
    s.map_values(|e: ScopeEntry| e@)
}

/// The parser's working state: a cursor into the whitespace-free token
/// sequence, the names currently in scope, and the stack of operand
/// categories demanded by the operators being parsed.
pub struct ExpressionIter {
    declared_variables: Vec<ScopeEntry>,
    cursor: usize,
    tokens: Vec<Token>,
    constraints: Vec<ValueCategory>,
}

impl ExpressionIter {
    pub closed spec fn toks(&self) -> Seq<TokenModel> {
        view_tokens(self.tokens@)
    }

    pub closed spec fn scope(&self) -> Seq<Binding> {
        view_scope(self.declared_variables@)
    }

    pub closed spec fn cons(&self) -> Seq<ValueCategory> {
        self.constraints@
    }

    pub closed spec fn wf(&self) -> bool {
        self.cursor <= self.tokens@.len()
    }

    /// The cursor's position in the whitespace-free token sequence.
    pub closed spec fn cursor_pos(&self) -> int {
        self.cursor as int
    }
}

/// The outcome the specification assigns to reading one expression in the
/// given state.
pub closed spec fn pop_entry(st: ExpressionIter) -> PopOutcome {
    spec_pop_expression(st.toks(), st.cursor as int, st.scope(), st.cons())
}

/// What each `pop` method promises: its result and final state are exactly
/// what `spec_pop_expression` assigns to its starting state.  On success the
/// tokens and the constraint stack are unchanged and the cursor has moved
/// forward past at least one token.
pub closed spec fn pop_result(
    pre: ExpressionIter,
    post: ExpressionIter,
    r: Result<ASTExpression, SyntaxError>,
) -> bool {
    match r {
        Ok(e) => {
            &&& pop_entry(pre) == (PopOutcome::Parsed {
                expr: e@,
                next: post.cursor as int,
                scope: post.scope(),
            })
            &&& post.tokens@ == pre.tokens@
            &&& post.cons() == pre.cons()
            &&& pre.cursor < post.cursor
            &&& post.cursor <= post.tokens@.len()
        },
        Err(k) => pop_entry(pre) == (PopOutcome::Failed { kind: k }),
    }
}

/// The production families, in the order they are tried.
enum TokenGroup {
    Ternary,
    VariableOp,
    BinaryOp,
    UnaryOp,
    Literal,
    Neither,
}

fn token_group(t: &Token) -> (g: TokenGroup)
    ensures
        (g is Ternary) == (t@ is For || t@ is If),
        (g is VariableOp) == (t@ is Var || t@ is SetKw),
        (g is BinaryOp) == is_operator_token(t@),
        (g is UnaryOp) == (t@ is OpenBracket || t@ is BinaryNeg),
        (g is Literal) == (t@ is Number || t@ is Bool || t@ is Name),
{
    match t {
        Token::For | Token::If => TokenGroup::Ternary,
        Token::Var | Token::SetKw => TokenGroup::VariableOp,
        Token::Bigger | Token::Less | Token::Eq | Token::Plus | Token::Minus | Token::Divide
            | Token::Multiply | Token::BinaryAnd | Token::BinaryOr | Token::Range => {
            TokenGroup::BinaryOp
        },
        Token::OpenBracket | Token::BinaryNeg => TokenGroup::UnaryOp,
        Token::Number(_) | Token::Bool(_) | Token::Name(_) => TokenGroup::Literal,
        Token::CloseBracket | Token::Space => TokenGroup::Neither,
    }
}

fn operator_yield(t: &Token) -> (c: ValueCategory)
    ensures
        c == operator_yield_category(t@),
{
    match t {
        Token::Plus | Token::Minus | Token::Multiply | Token::Divide => ValueCategory::Number,
        Token::Range => ValueCategory::Range,
        _ => ValueCategory::Bool,
    }
}

fn operator_operand(t: &Token) -> (c: ValueCategory)
    ensures
        c == operator_operand_category(t@),
{
    match t {
        Token::BinaryAnd | Token::BinaryOr => ValueCategory::Bool,
        _ => ValueCategory::Number,
    }
}

fn build_binary_node(op: &Token, left: ASTExpression, right: ASTExpression) -> (e: ASTExpression)
    ensures
        e@ == binary_node(op@, left@, right@),
{
    let l = Box::new(left);
    let r = Box::new(right);
    match op {
        Token::Bigger => ASTExpression::BiggerExpression { left: l, right: r },
        Token::Less => ASTExpression::LessExpression { left: l, right: r },
        Token::Eq => ASTExpression::EqExpression { left: l, right: r },
        Token::Plus => ASTExpression::PlusExpression { left: l, right: r },
        Token::Minus => ASTExpression::MinusExpression { left: l, right: r },
        Token::Multiply => ASTExpression::MultiplyExpression { left: l, right: r },
        Token::Divide => ASTExpression::DivideExpression { left: l, right: r },
        Token::BinaryAnd => ASTExpression::BinaryAndExpression { left: l, right: r },
        Token::BinaryOr => ASTExpression::BinaryOrExpression { left: l, right: r },
        _ => ASTExpression::RangeDefinition { start: l, end: r },
    }
}

impl ExpressionIter {
    /// A fresh parser over the given tokens, with whitespace stripped, an
    /// empty scope and no active constraint.
    pub fn new(raw_tokens: &Vec<Token>) -> (it: Self)
        ensures
            it.toks() == strip_spaces(view_tokens(raw_tokens@)),
            it.cursor_pos() == 0,
            it.scope() == Seq::<Binding>::empty(),
            it.cons() == Seq::<ValueCategory>::empty(),
            it.wf(),
    {
        let it = ExpressionIter {
            declared_variables: Vec::new(),
            tokens: ExpressionIter::strip_tokens(raw_tokens),
            cursor: 0,
            constraints: Vec::new(),
        };
        proof {
            assert(it.scope() =~= Seq::<Binding>::empty());
        }
        it
    }

    /// The tokens with every `Space` removed.
    fn strip_tokens(raw_tokens: &Vec<Token>) -> (v: Vec<Token>)
        ensures
            view_tokens(v@) == strip_spaces(view_tokens(raw_tokens@)),
    {
        let mut v: Vec<Token> = Vec::new();
        let n = raw_tokens.len();
        let mut k: usize = 0;
        proof {
            assert(view_tokens(v@) =~= strip_spaces(view_tokens(raw_tokens@.take(0))));
        }
        while k < n
            invariant
                k <= n,
                n == raw_tokens@.len(),
                view_tokens(v@) == strip_spaces(view_tokens(raw_tokens@.take(k as int))),
            decreases n - k,
        {
            let ghost done = view_tokens(v@);
            let keep = match &raw_tokens[k] {
                Token::Space => false,
                _ => true,
            };
            if keep {
                let t = raw_tokens[k].clone();
                v.push(t);
            }
            proof {
                let prev = view_tokens(raw_tokens@.take(k as int));
                let cur = view_tokens(raw_tokens@.take(k as int + 1));
                assert(cur.len() == k + 1);
                assert(cur.drop_last() =~= prev);
                assert(cur.last() == raw_tokens@[k as int]@);
                if keep {
                    assert(view_tokens(v@) =~= done.push(raw_tokens@[k as int]@));
                    assert(strip_spaces(cur) == strip_spaces(prev).push(cur.last()));
                } else {
                    assert(strip_spaces(cur) == strip_spaces(prev));
                }
            }
            k = k + 1;
        }
        proof {
            assert(raw_tokens@.take(n as int) =~= raw_tokens@);
        }
        v
    }

    /// Whether `name` is currently in scope.
    fn is_declared_variable(&self, name: &String) -> (r: bool)
        ensures
            r == scope_contains(self.scope(), name@),
    {
        let n = self.declared_variables.len();
        let mut k: usize = 0;
        while k < n
            invariant
                k <= n,
                n == self.declared_variables@.len(),
                forall|j: int| 0 <= j < k ==> self.scope()[j].name != name@,
            decreases n - k,
        {
            if self.declared_variables[k].name == *name {
                proof {
                    assert(self.scope()[k as int].name == name@);
                }
                return true;
            }
            k = k + 1;
        }
        false
    }

    /// The position of the most recent declaration of `name`.
    fn find_last_declared(&self, name: &String) -> (k: usize)
        requires
            scope_contains(self.scope(), name@),
        ensures
            k < self.declared_variables@.len(),
            self.scope()[k as int].name == name@,
            forall|j: int|
                k < j < self.declared_variables@.len() ==> self.scope()[j].name != name@,
    {
        let n = self.declared_variables.len();
        let mut k = n;
        while k > 0
            invariant
                k <= n,
                n == self.declared_variables@.len(),
                forall|j: int| k <= j < n ==> self.scope()[j].name != name@,
            decreases k,
        {
            k = k - 1;
            if self.declared_variables[k].name == *name {
                return k;
            }
            proof {
                assert(self.scope()[k as int].name != name@);
            }
        }
        proof {
            let w = choose|w: int| 0 <= w < self.scope().len() && self.scope()[w].name == name@;
            assert(self.scope()[w].name != name@);
        }
        0
    }

    /// The category recorded for `name` by its most recent declaration.
    fn declared_category(&self, name: &String) -> (r: Option<ValueCategory>)
        requires
            scope_contains(self.scope(), name@),
        ensures
            r == scope_category(self.scope(), name@),
    {
        let k = self.find_last_declared(name);
        proof {
            lemma_scope_category_at(self.scope(), name@, k as int);
        }
        self.declared_variables[k].category
    }

    /// Declares `name` with the given category.
    fn push_declared_variable(&mut self, name: String, category: Option<ValueCategory>)
        ensures
            final(self).scope() == old(self).scope().push(Binding { name: name@, category }),
            final(self).tokens@ == old(self).tokens@,
            final(self).cursor == old(self).cursor,
            final(self).cons() == old(self).cons(),
    {
        let ghost pre = self.scope();
        let ghost nv = name@;
        self.declared_variables.push(ScopeEntry { name, category });
        proof {
            assert(self.scope() =~= pre.push(Binding { name: nv, category }));
        }
    }

    /// Takes the most recent declaration of `name` out of scope.
    fn remove_declared_variable(&mut self, name: &String)
        requires
            scope_contains(old(self).scope(), name@),
        ensures
            final(self).scope() == scope_remove(old(self).scope(), name@),
            final(self).tokens@ == old(self).tokens@,
            final(self).cursor == old(self).cursor,
            final(self).cons() == old(self).cons(),
    {
        let k = self.find_last_declared(name);
        proof {
            lemma_scope_remove_at(self.scope(), name@, k as int);
        }
        let ghost pre = self.scope();
        self.declared_variables.remove(k);
        proof {
            assert(self.scope() =~= pre.remove(k as int));
        }
    }

    fn current_token(&self) -> (t: &Token)
        requires
            self.cursor < self.tokens@.len(),
        ensures
            *t == self.tokens@[self.cursor as int],
    {
        &self.tokens[self.cursor]
    }

    fn move_cursor(&mut self)
        requires
            old(self).cursor < old(self).tokens@.len(),
        ensures
            final(self).cursor == old(self).cursor + 1,
            final(self).tokens@ == old(self).tokens@,
            final(self).declared_variables@ == old(self).declared_variables@,
            final(self).constraints@ == old(self).constraints@,
    {
        // reading the length shows the cursor has room to advance
        let _bound = self.tokens.len();
        self.cursor = self.cursor + 1;
    }

    fn push_constraint(&mut self, c: ValueCategory)
        ensures
            final(self).constraints@ == old(self).constraints@.push(c),
            final(self).tokens@ == old(self).tokens@,
            final(self).cursor == old(self).cursor,
            final(self).declared_variables@ == old(self).declared_variables@,
    {
        self.constraints.push(c);
    }

    fn pop_constraint(&mut self)
        requires
            old(self).constraints@.len() > 0,
        ensures
            final(self).constraints@ == old(self).constraints@.drop_last(),
            final(self).tokens@ == old(self).tokens@,
            final(self).cursor == old(self).cursor,
            final(self).declared_variables@ == old(self).declared_variables@,
    {
        let _ = self.constraints.pop();
    }

    /// The active constraint, if any, asks for category `c`.
    fn constraint_admits(&self, c: ValueCategory) -> (r: bool)
        ensures
            r == admits(self.cons(), c),
    {
        if self.constraints.len() == 0 {
            true
        } else {
            let top = self.constraints[self.constraints.len() - 1];
            top == c
        }
    }

    /// Reads the expression that starts at the cursor, dispatching on the
    /// current token to the grammar productions in their priority order.
    pub fn pop_expression(&mut self) -> (r: Result<ASTExpression, SyntaxError>)
        requires
            old(self).wf(),
        ensures
            pop_result(*old(self), *final(self), r),
        decreases self.toks().len() - self.cursor_pos(), 1int,
    {
        if self.cursor >= self.tokens.len() {
            return Err(SyntaxError::UnexpectedToken);
        }
        let g = token_group(&self.tokens[self.cursor]);
        match g {
            TokenGroup::Ternary => self.pop_ternary_function(),
            TokenGroup::VariableOp => self.pop_variable_operation(),
            TokenGroup::BinaryOp => self.pop_binary_function(),
            TokenGroup::UnaryOp => self.pop_unary_function(),
            TokenGroup::Literal => self.pop_literal(),
            TokenGroup::Neither => Err(SyntaxError::UnexpectedToken),
        }
    }

    /// `for <index> <range> <body>` and `if <cond> <then> <else>`.
    fn pop_ternary_function(&mut self) -> (r: Result<ASTExpression, SyntaxError>)
        requires
            old(self).wf(),
            old(self).cursor < old(self).tokens@.len(),
            old(self).toks()[old(self).cursor as int] is For || old(self).toks()[old(
                self,
            ).cursor as int] is If,
        ensures
            pop_result(*old(self), *final(self), r),
        decreases self.tokens@.len() - self.cursor, 0int,
    {
        let is_for = match self.current_token() {
            Token::For => true,
            _ => false,
        };
        if is_for {
            self.move_cursor();
            if self.cursor >= self.tokens.len() {
                return Err(SyntaxError::UnexpectedToken);
            }
            let name: String = match self.current_token() {
                Token::Name(s) => s.clone(),
                _ => {
                    return Err(SyntaxError::UnexpectedToken);
                },
            };
            if self.is_declared_variable(&name) {
                return Err(SyntaxError::RedeclaredVariable);
            }
            self.move_cursor();
            let range_e = match self.pop_expression() {
                Ok(e) => e,
                Err(k) => {
                    return Err(k);
                },
            };
            // the range subtree may itself have declared the index
            if !self.is_declared_variable(&name) {
                self.push_declared_variable(name.clone(), Some(ValueCategory::Number));
            }
            let ghost mid = *self;
            proof {
                // the index is in scope for the body: it was either pushed
                // just now, standing last, or already declared by the range
                assert(scope_contains(mid.scope(), name@)) by {
                    if mid.scope().len() > 0 && mid.scope().last().name == name@ {
                        assert(mid.scope()[mid.scope().len() - 1].name == name@);
                    }
                }
            }
            let body_e = match self.pop_expression() {
                Ok(e) => e,
                Err(k) => {
                    return Err(k);
                },
            };
            proof {
                lemma_pop_keeps_name(mid.toks(), mid.cursor as int, mid.scope(), mid.cons(), name@);
            }
            self.remove_declared_variable(&name);
            Ok(
                ASTExpression::ForDefinition {
                    index: name,
                    range: Box::new(range_e),
                    body: Box::new(body_e),
                },
            )
        } else {
            self.move_cursor();
            let cond_e = match self.pop_expression() {
                Ok(e) => e,
                Err(k) => {
                    return Err(k);
                },
            };
            let then_e = match self.pop_expression() {
                Ok(e) => e,
                Err(k) => {
                    return Err(k);
                },
            };
            let else_e = match self.pop_expression() {
                Ok(e) => e,
                Err(k) => {
                    return Err(k);
                },
            };
            Ok(
                ASTExpression::IFDefinition {
                    condition: Box::new(cond_e),
                    then_clause: Box::new(then_e),
                    else_clause: Box::new(else_e),
                },
            )
        }
    }

    /// `var <name> <value>` and `set <name> <value>`.
    fn pop_variable_operation(&mut self) -> (r: Result<ASTExpression, SyntaxError>)
        requires
            old(self).wf(),
            old(self).cursor < old(self).tokens@.len(),
            old(self).toks()[old(self).cursor as int] is Var || old(self).toks()[old(
                self,
            ).cursor as int] is SetKw,
        ensures
            pop_result(*old(self), *final(self), r),
        decreases self.tokens@.len() - self.cursor, 0int,
    {
        let is_var = match self.current_token() {
            Token::Var => true,
            _ => false,
        };
        self.move_cursor();
        if self.cursor >= self.tokens.len() {
            return Err(SyntaxError::UnexpectedToken);
        }
        let name: String = match self.current_token() {
            Token::Name(s) => s.clone(),
            _ => {
                return Err(SyntaxError::UnexpectedToken);
            },
        };
        if is_var {
            if self.is_declared_variable(&name) {
                return Err(SyntaxError::RedeclaredVariable);
            }
            self.move_cursor();
            // declared before its value is read: a self-referential
            // initializer is legal
            self.push_declared_variable(name.clone(), None);
            let value = match self.pop_expression() {
                Ok(e) => e,
                Err(k) => {
                    return Err(k);
                },
            };
            Ok(ASTExpression::VarDefinition { name, value: Box::new(value) })
        } else {
            if !self.is_declared_variable(&name) {
                return Err(SyntaxError::UndeclaredVariable);
            }
            self.move_cursor();
            let new_value = match self.pop_expression() {
                Ok(e) => e,
                Err(k) => {
                    return Err(k);
                },
            };
            Ok(ASTExpression::SetDefinition { name, new_value: Box::new(new_value) })
        }
    }

    /// A leading operator followed by its two operands.  The operator's
    /// yield must agree with the active constraint; its operand category is
    /// the constraint for both operands.
    fn pop_binary_function(&mut self) -> (r: Result<ASTExpression, SyntaxError>)
        requires
            old(self).wf(),
            old(self).cursor < old(self).tokens@.len(),
            is_operator_token(old(self).toks()[old(self).cursor as int]),
        ensures
            pop_result(*old(self), *final(self), r),
        decreases self.tokens@.len() - self.cursor, 0int,
    {
        let op = self.current_token().clone();
        if !self.constraint_admits(operator_yield(&op)) {
            return Err(SyntaxError::TypeMismatch);
        }
        let req = operator_operand(&op);
        self.push_constraint(req);
        self.move_cursor();
        let left = match self.pop_expression() {
            Ok(e) => e,
            Err(k) => {
                return Err(k);
            },
        };
        let right = match self.pop_expression() {
            Ok(e) => e,
            Err(k) => {
                return Err(k);
            },
        };
        self.pop_constraint();
        proof {
            assert(old(self).cons().push(req).drop_last() =~= old(self).cons());
        }
        Ok(build_binary_node(&op, left, right))
    }

    /// `( <expr> )` and `! <expr>`.
    fn pop_unary_function(&mut self) -> (r: Result<ASTExpression, SyntaxError>)
        requires
            old(self).wf(),
            old(self).cursor < old(self).tokens@.len(),
            old(self).toks()[old(self).cursor as int] is OpenBracket || old(self).toks()[old(
                self,
            ).cursor as int] is BinaryNeg,
        ensures
            pop_result(*old(self), *final(self), r),
        decreases self.tokens@.len() - self.cursor, 0int,
    {
        let is_bracket = match self.current_token() {
            Token::OpenBracket => true,
            _ => false,
        };
        if is_bracket {
            self.move_cursor();
            let inner = match self.pop_expression() {
                Ok(e) => e,
                Err(k) => {
                    return Err(k);
                },
            };
            if self.cursor >= self.tokens.len() {
                return Err(SyntaxError::UnterminatedBracket);
            }
            let is_close = match self.current_token() {
                Token::CloseBracket => true,
                _ => false,
            };
            if !is_close {
                return Err(SyntaxError::UnterminatedBracket);
            }
            self.move_cursor();
            Ok(inner)
        } else {
            if !self.constraint_admits(ValueCategory::Bool) {
                return Err(SyntaxError::TypeMismatch);
            }
            self.push_constraint(ValueCategory::Bool);
            self.move_cursor();
            let inner = match self.pop_expression() {
                Ok(e) => e,
                Err(k) => {
                    return Err(k);
                },
            };
            self.pop_constraint();
            proof {
                assert(old(self).cons().push(ValueCategory::Bool).drop_last() =~= old(
                    self,
                ).cons());
            }
            Ok(ASTExpression::BinaryNegExpression(Box::new(inner)))
        }
    }

    /// A number, a boolean, or a reference to a declared name whose
    /// category, where known, agrees with the active constraint.
    fn pop_literal(&mut self) -> (r: Result<ASTExpression, SyntaxError>)
        requires
            old(self).wf(),
            old(self).cursor < old(self).tokens@.len(),
            old(self).toks()[old(self).cursor as int] is Number || old(self).toks()[old(
                self,
            ).cursor as int] is Bool || old(self).toks()[old(self).cursor as int] is Name,
        ensures
            pop_result(*old(self), *final(self), r),
        decreases self.tokens@.len() - self.cursor, 0int,
    {
        let t = self.current_token().clone();
        match t {
            Token::Number(x) => {
                if !self.constraint_admits(ValueCategory::Number) {
                    return Err(SyntaxError::TypeMismatch);
                }
                self.move_cursor();
                Ok(ASTExpression::NumberLiteral(x))
            },
            Token::Bool(b) => {
                if !self.constraint_admits(ValueCategory::Bool) {
                    return Err(SyntaxError::TypeMismatch);
                }
                self.move_cursor();
                Ok(ASTExpression::BoolLiteral(b))
            },
            Token::Name(nm) => {
                if !self.is_declared_variable(&nm) {
                    return Err(SyntaxError::UndeclaredVariable);
                }
                let cat = self.declared_category(&nm);
                if let Some(c) = cat {
                    if !self.constraint_admits(c) {
                        return Err(SyntaxError::UndeclaredVariable);
                    }
                }
                self.move_cursor();
                Ok(ASTExpression::NameReference(nm))
            },
            _ => {
                proof {
                    assert(false);
                }
                Err(SyntaxError::UnexpectedToken)
            },
        }
    }
}

/// Combines the statements already read with the outcome on the rest of the
/// tokens.
pub open spec fn parse_concat(
    done: Seq<AstModel>,
    rest: Result<Seq<AstModel>, SyntaxError>,
) -> Result<Seq<AstModel>, SyntaxError> {
    match rest {
        Ok(r) => Ok(done + r),
        Err(e) => Err(e),
    }
}

/// Reads the whole token sequence into its sequence of top-level
/// expressions, or fails at the first expression that cannot be read.
pub fn parse(tokens: &Vec<Token>) -> (r: Result<Vec<ASTExpression>, SyntaxError>)
    ensures
        match r {
            Ok(es) => spec_parse(view_tokens(tokens@)) == Result::<
                Seq<AstModel>,
                SyntaxError,
            >::Ok(view_expressions(es@)),
            Err(e) => spec_parse(view_tokens(tokens@)) == Result::<
                Seq<AstModel>,
                SyntaxError,
            >::Err(e),
        },
{
    let mut it = ExpressionIter::new(tokens);
    let mut out: Vec<ASTExpression> = Vec::new();
    let ghost toks = it.toks();
    proof {
        assert(view_expressions(out@) =~= Seq::<AstModel>::empty());
        assert(view_expressions(out@) + spec_parse_from(toks, 0, it.scope())->Ok_0
            =~= spec_parse_from(toks, 0, it.scope())->Ok_0);
    }
    while it.cursor < it.tokens.len()
        invariant
            it.wf(),
            it.cons() == Seq::<ValueCategory>::empty(),
            it.toks() == toks,
            toks == strip_spaces(view_tokens(tokens@)),
            spec_parse_from(toks, 0, Seq::empty()) == parse_concat(
                view_expressions(out@),
                spec_parse_from(toks, it.cursor as int, it.scope()),
            ),
        decreases it.tokens@.len() - it.cursor,
    {
        let ghost done = view_expressions(out@);
        let ghost pre = it;
        match it.pop_expression() {
            Err(e) => {
                proof {
                    assert(pre.cons() =~= Seq::<ValueCategory>::empty());
                    assert(pop_entry(pre) == spec_pop_expression(
                        toks, pre.cursor as int, pre.scope(), Seq::empty()));
                    assert(spec_parse_from(toks, pre.cursor as int, pre.scope())
                        == Result::<Seq<AstModel>, SyntaxError>::Err(e));
                }
                return Err(e);
            },
            Ok(e) => {
                proof {
                    let rest = spec_parse_from(toks, it.cursor as int, it.scope());
                    if rest is Ok {
                        assert(done + (seq![e@] + rest->Ok_0) =~= done.push(e@) + rest->Ok_0);
                    }
                    assert(view_expressions(out@.push(e)) =~= done.push(e@));
                }
                out.push(e);
            },
        }
    }
    proof {
        assert(spec_parse_from(toks, it.cursor as int, it.scope()) == Result::<
            Seq<AstModel>,
            SyntaxError,
        >::Ok(Seq::empty()));
        assert(view_expressions(out@) + Seq::<AstModel>::empty() =~= view_expressions(out@));
    }
    Ok(out)
}

} // verus!

