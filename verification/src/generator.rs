use vstd::prelude::*;
use vstd::string::StringExecFns;

use crate::ast::ASTExpression;
use crate::ast::AstModel;
use crate::ast::view_expressions;

verus! {

/// The target-language text for one node: a fixed template per variant,
/// children rendered first.
pub open spec fn render(e: AstModel) -> Seq<char>
    decreases e,
{
    match e {
        AstModel::ForDefinition { index, range, body } => "for ("@ + index + " of "@ + render(
            *range,
        ) + ") {\n  "@ + render(*body) + "}\n"@,
        AstModel::IFDefinition { condition, then_clause, else_clause } => "if ("@ + render(
            *condition,
        ) + ") {\n  "@ + render(*then_clause) + "} else {\n  "@ + render(*else_clause) + "}\n"@,
        AstModel::SetDefinition { name, new_value } => name + " = "@ + render(*new_value) + ";\n"@,
        AstModel::VarDefinition { name, value } => "let "@ + name + " = "@ + render(*value)
            + ";\n"@,
        AstModel::RangeDefinition { start, end } => "range("@ + render(*start) + ", "@ + render(
            *end,
        ) + ")"@,
        AstModel::EqExpression { left, right } => "("@ + render(*left) + " == "@ + render(*right)
            + ")"@,
        AstModel::BiggerExpression { left, right } => "("@ + render(*left) + " > "@ + render(
            *right,
        ) + ")"@,
        AstModel::LessExpression { left, right } => "("@ + render(*left) + " < "@ + render(*right)
            + ")"@,
        AstModel::PlusExpression { left, right } => "("@ + render(*left) + " + "@ + render(*right)
            + ")"@,
        AstModel::MinusExpression { left, right } => "("@ + render(*left) + " - "@ + render(*right)
            + ")"@,
        AstModel::MultiplyExpression { left, right } => "("@ + render(*left) + " * "@ + render(
            *right,
        ) + ")"@,
        AstModel::DivideExpression { left, right } => "("@ + render(*left) + " / "@ + render(
            *right,
        ) + ")"@,
        AstModel::BinaryAndExpression { left, right } => "("@ + render(*left) + " && "@ + render(
            *right,
        ) + ")"@,
        AstModel::BinaryOrExpression { left, right } => "("@ + render(*left) + " || "@ + render(
            *right,
        ) + ")"@,
        AstModel::BinaryNegExpression(inner) => "(!"@ + render(*inner) + ")"@,
        AstModel::NameReference(name) => name,
        AstModel::NumberLiteral(text) => text,
        AstModel::BoolLiteral(b) => if b {
            "true"@
        } else {
            "false"@
        },
    }
}

/// The text for a statement sequence: each statement's text in order.
pub open spec fn render_all(es: Seq<AstModel>) -> Seq<char>
    decreases es.len(),
{
    if es.len() == 0 {
        Seq::empty()
    } else {
        render_all(es.drop_last()) + render(es.last())
    }
}

/// `for` and `if` nodes.
fn generate_code_for_ternary_function(statement: &ASTExpression) -> (r: Option<String>)
    ensures
        r matches Some(code) ==> code@ == render(statement@),
        r is None ==> !(statement@ is ForDefinition) && !(statement@ is IFDefinition),
    decreases *statement, 0int,
{
    match statement {
        ASTExpression::ForDefinition { index, range, body } => {
            let mut out = String::from_str("for (");
            out.append(index.as_str());
            out.append(" of ");
            let range_code = generate_code_for_statement(&**range);
            out.append(range_code.as_str());
            out.append(") {\n  ");
            let body_code = generate_code_for_statement(&**body);
            out.append(body_code.as_str());
            out.append("}\n");
            Some(out)
        },
        ASTExpression::IFDefinition { condition, then_clause, else_clause } => {
            let mut out = String::from_str("if (");
            let condition_code = generate_code_for_statement(&**condition);
            out.append(condition_code.as_str());
            out.append(") {\n  ");
            let then_code = generate_code_for_statement(&**then_clause);
            out.append(then_code.as_str());
            out.append("} else {\n  ");
            let else_code = generate_code_for_statement(&**else_clause);
            out.append(else_code.as_str());
            out.append("}\n");
            Some(out)
        },
        _ => None,
    }
}

/// `var` and `set` nodes.
fn generate_code_for_var_operation(statement: &ASTExpression) -> (r: Option<String>)
    ensures
        r matches Some(code) ==> code@ == render(statement@),
        r is None ==> !(statement@ is SetDefinition) && !(statement@ is VarDefinition),
    decreases *statement, 0int,
{
    match statement {
        ASTExpression::SetDefinition { name, new_value } => {
            let mut out = name.clone();
            out.append(" = ");
            let value_code = generate_code_for_statement(&**new_value);
            out.append(value_code.as_str());
            out.append(";\n");
            Some(out)
        },
        ASTExpression::VarDefinition { name, value } => {
            let mut out = String::from_str("let ");
            out.append(name.as_str());
            out.append(" = ");
            let value_code = generate_code_for_statement(&**value);
            out.append(value_code.as_str());
            out.append(";\n");
            Some(out)
        },
        _ => None,
    }
}

/// Range construction and the binary operators.
fn generate_code_for_binary_function(statement: &ASTExpression) -> (r: Option<String>)
    ensures
        r matches Some(code) ==> code@ == render(statement@),
        r is None ==> !(statement@ is RangeDefinition) && !(statement@ is EqExpression) && !(
        statement@ is BiggerExpression) && !(statement@ is LessExpression) && !(statement@
            is PlusExpression) && !(statement@ is MinusExpression) && !(statement@
            is MultiplyExpression) && !(statement@ is DivideExpression) && !(statement@
            is BinaryAndExpression) && !(statement@ is BinaryOrExpression),
    decreases *statement, 0int,
{
    match statement {
        ASTExpression::RangeDefinition { start, end } => {
            let mut out = String::from_str("range(");
            let start_code = generate_code_for_statement(&**start);
            out.append(start_code.as_str());
            out.append(", ");
            let end_code = generate_code_for_statement(&**end);
            out.append(end_code.as_str());
            out.append(")");
            Some(out)
        },
        ASTExpression::EqExpression { left, right } => {
            let left_code = generate_code_for_statement(&**left);
            let right_code = generate_code_for_statement(&**right);
            Some(wrap_binary_operator(" == ", left_code, right_code))
        },
        ASTExpression::BiggerExpression { left, right } => {
            let left_code = generate_code_for_statement(&**left);
            let right_code = generate_code_for_statement(&**right);
            Some(wrap_binary_operator(" > ", left_code, right_code))
        },
        ASTExpression::LessExpression { left, right } => {
            let left_code = generate_code_for_statement(&**left);
            let right_code = generate_code_for_statement(&**right);
            Some(wrap_binary_operator(" < ", left_code, right_code))
        },
        ASTExpression::PlusExpression { left, right } => {
            let left_code = generate_code_for_statement(&**left);
            let right_code = generate_code_for_statement(&**right);
            Some(wrap_binary_operator(" + ", left_code, right_code))
        },
        ASTExpression::MinusExpression { left, right } => {
            let left_code = generate_code_for_statement(&**left);
            let right_code = generate_code_for_statement(&**right);
            Some(wrap_binary_operator(" - ", left_code, right_code))
        },
        ASTExpression::MultiplyExpression { left, right } => {
            let left_code = generate_code_for_statement(&**left);
            let right_code = generate_code_for_statement(&**right);
            Some(wrap_binary_operator(" * ", left_code, right_code))
        },
        ASTExpression::DivideExpression { left, right } => {
            let left_code = generate_code_for_statement(&**left);
            let right_code = generate_code_for_statement(&**right);
            Some(wrap_binary_operator(" / ", left_code, right_code))
        },
        ASTExpression::BinaryAndExpression { left, right } => {
            let left_code = generate_code_for_statement(&**left);
            let right_code = generate_code_for_statement(&**right);
            Some(wrap_binary_operator(" && ", left_code, right_code))
        },
        ASTExpression::BinaryOrExpression { left, right } => {
            let left_code = generate_code_for_statement(&**left);
            let right_code = generate_code_for_statement(&**right);
            Some(wrap_binary_operator(" || ", left_code, right_code))
        },
        _ => None,
    }
}

/// `(<left><op><right>)`, the shared shape of the operator templates.
fn wrap_binary_operator(op: &str, left_code: String, right_code: String) -> (code: String)
    ensures
        code@ == "("@ + left_code@ + op@ + right_code@ + ")"@,
{
    let mut out = String::from_str("(");
    out.append(left_code.as_str());
    out.append(op);
    out.append(right_code.as_str());
    out.append(")");
    out
}

/// Negation.
fn generate_code_for_unary_function(statement: &ASTExpression) -> (r: Option<String>)
    ensures
        r matches Some(code) ==> code@ == render(statement@),
        r is None ==> !(statement@ is BinaryNegExpression),
    decreases *statement, 0int,
{
    match statement {
        ASTExpression::BinaryNegExpression(inner) => {
            let mut out = String::from_str("(!");
            let inner_code = generate_code_for_statement(&**inner);
            out.append(inner_code.as_str());
            out.append(")");
            Some(out)
        },
        _ => None,
    }
}

/// Name references and literals, emitted verbatim.
fn generate_code_for_literal(statement: &ASTExpression) -> (r: Option<String>)
    ensures
        r matches Some(code) ==> code@ == render(statement@),
        r is None ==> !(statement@ is NameReference) && !(statement@ is BoolLiteral) && !(
        statement@ is NumberLiteral),
{
    match statement {
        ASTExpression::NameReference(name) => Some(name.clone()),
        ASTExpression::NumberLiteral(text) => Some(text.clone()),
        ASTExpression::BoolLiteral(b) => {
            if *b {
                Some(String::from_str("true"))
            } else {
                Some(String::from_str("false"))
            }
        },
        _ => None,
    }
}

/// The text for one node, found by trying the template families in a fixed
/// order; exactly one of them accepts each node kind.
fn generate_code_for_statement(statement: &ASTExpression) -> (code: String)
    ensures
        code@ == render(statement@),
    decreases *statement, 1int,
{
    if let Some(code) = generate_code_for_ternary_function(statement) {
        return code;
    }
    if let Some(code) = generate_code_for_var_operation(statement) {
        return code;
    }
    if let Some(code) = generate_code_for_binary_function(statement) {
        return code;
    }
    if let Some(code) = generate_code_for_unary_function(statement) {
        return code;
    }
    if let Some(code) = generate_code_for_literal(statement) {
        return code;
    }
    proof {
        assert(false);
    }
    String::new()
}

/// Renders the statement sequence after the given boilerplate preamble,
/// which the emitter takes as it is.
pub fn generate_code(header: &str, statements: &Vec<ASTExpression>) -> (code: String)
    ensures
        code@ == header@ + render_all(view_expressions(statements@)),
{
    let ghost vs = view_expressions(statements@);
    let mut generated_code = String::from_str(header);
    let n = statements.len();
    let mut k: usize = 0;
    proof {
        assert(header@ + render_all(vs.take(0)) =~= header@);
    }
    while k < n
        invariant
            k <= n,
            n == statements@.len(),
            vs == view_expressions(statements@),
            generated_code@ == header@ + render_all(vs.take(k as int)),
        decreases n - k,
    {
        let statement_code = generate_code_for_statement(&statements[k]);
        proof {
            let prev = vs.take(k as int);
            let cur = vs.take(k as int + 1);
            assert(cur.drop_last() =~= prev);
            assert(cur.last() == statements@[k as int]@);
            assert((header@ + render_all(prev)) + render(cur.last()) =~= header@ + render_all(
                cur,
            ));
        }
        generated_code.append(statement_code.as_str());
        k = k + 1;
    }
    proof {
        assert(vs.take(n as int) =~= vs);
    }
    generated_code
}

} // verus!
