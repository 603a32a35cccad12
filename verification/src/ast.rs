use vstd::prelude::*;

verus! {

/// One node of the abstract syntax tree: a tagged union with one variant
/// per language construct.  Each non-literal variant exclusively owns its
/// child subexpressions; numeric literals keep their original text, whose
/// interpretation belongs to the target runtime, not to the parser.
#[derive(Debug, PartialEq)]
pub enum ASTExpression {
    VarDefinition { name: String, value: Box<ASTExpression> },
    SetDefinition { name: String, new_value: Box<ASTExpression> },
    IFDefinition {
        condition: Box<ASTExpression>,
        then_clause: Box<ASTExpression>,
        else_clause: Box<ASTExpression>,
    },
    ForDefinition { index: String, range: Box<ASTExpression>, body: Box<ASTExpression> },
    RangeDefinition { start: Box<ASTExpression>, end: Box<ASTExpression> },
    PlusExpression { left: Box<ASTExpression>, right: Box<ASTExpression> },
    MinusExpression { left: Box<ASTExpression>, right: Box<ASTExpression> },
    DivideExpression { left: Box<ASTExpression>, right: Box<ASTExpression> },
    MultiplyExpression { left: Box<ASTExpression>, right: Box<ASTExpression> },
    BinaryAndExpression { left: Box<ASTExpression>, right: Box<ASTExpression> },
    BinaryOrExpression { left: Box<ASTExpression>, right: Box<ASTExpression> },
    BinaryNegExpression(Box<ASTExpression>),
    EqExpression { left: Box<ASTExpression>, right: Box<ASTExpression> },
    BiggerExpression { left: Box<ASTExpression>, right: Box<ASTExpression> },
    LessExpression { left: Box<ASTExpression>, right: Box<ASTExpression> },
    NameReference(String),
    BoolLiteral(bool),
    NumberLiteral(String),
}

/// The mathematical value of an `ASTExpression`: the same tree with names
/// and literal texts carried as character sequences.
pub enum AstModel {
    VarDefinition { name: Seq<char>, value: Box<AstModel> },
    SetDefinition { name: Seq<char>, new_value: Box<AstModel> },
    IFDefinition {
        condition: Box<AstModel>,
        then_clause: Box<AstModel>,
        else_clause: Box<AstModel>,
    },
    ForDefinition { index: Seq<char>, range: Box<AstModel>, body: Box<AstModel> },
    RangeDefinition { start: Box<AstModel>, end: Box<AstModel> },
    PlusExpression { left: Box<AstModel>, right: Box<AstModel> },
    MinusExpression { left: Box<AstModel>, right: Box<AstModel> },
    DivideExpression { left: Box<AstModel>, right: Box<AstModel> },
    MultiplyExpression { left: Box<AstModel>, right: Box<AstModel> },
    BinaryAndExpression { left: Box<AstModel>, right: Box<AstModel> },
    BinaryOrExpression { left: Box<AstModel>, right: Box<AstModel> },
    BinaryNegExpression(Box<AstModel>),
    EqExpression { left: Box<AstModel>, right: Box<AstModel> },
    BiggerExpression { left: Box<AstModel>, right: Box<AstModel> },
    LessExpression { left: Box<AstModel>, right: Box<AstModel> },
    NameReference(Seq<char>),
    BoolLiteral(bool),
    NumberLiteral(Seq<char>),
}

impl ASTExpression {
    /// The tree's mathematical value, one variant for one variant.
    pub open spec fn model(&self) -> AstModel
        decreases self,
    {
        match self {
            ASTExpression::VarDefinition { name, value } => AstModel::VarDefinition {
                name: name@,
                value: Box::new(value.model()),
            },
            ASTExpression::SetDefinition { name, new_value } => AstModel::SetDefinition {
                name: name@,
                new_value: Box::new(new_value.model()),
            },
            ASTExpression::IFDefinition { condition, then_clause, else_clause } => {
                AstModel::IFDefinition {
                    condition: Box::new(condition.model()),
                    then_clause: Box::new(then_clause.model()),
                    else_clause: Box::new(else_clause.model()),
                }
            },
            ASTExpression::ForDefinition { index, range, body } => AstModel::ForDefinition {
                index: index@,
                range: Box::new(range.model()),
                body: Box::new(body.model()),
            },
            ASTExpression::RangeDefinition { start, end } => AstModel::RangeDefinition {
                start: Box::new(start.model()),
                end: Box::new(end.model()),
            },
            ASTExpression::PlusExpression { left, right } => AstModel::PlusExpression {
                left: Box::new(left.model()),
                right: Box::new(right.model()),
            },
            ASTExpression::MinusExpression { left, right } => AstModel::MinusExpression {
                left: Box::new(left.model()),
                right: Box::new(right.model()),
            },
            ASTExpression::DivideExpression { left, right } => AstModel::DivideExpression {
                left: Box::new(left.model()),
                right: Box::new(right.model()),
            },
            ASTExpression::MultiplyExpression { left, right } => AstModel::MultiplyExpression {
                left: Box::new(left.model()),
                right: Box::new(right.model()),
            },
            ASTExpression::BinaryAndExpression { left, right } => AstModel::BinaryAndExpression {
                left: Box::new(left.model()),
                right: Box::new(right.model()),
            },
            ASTExpression::BinaryOrExpression { left, right } => AstModel::BinaryOrExpression {
                left: Box::new(left.model()),
                right: Box::new(right.model()),
            },
            ASTExpression::BinaryNegExpression(inner) => AstModel::BinaryNegExpression(
                Box::new(inner.model()),
            ),
            ASTExpression::EqExpression { left, right } => AstModel::EqExpression {
                left: Box::new(left.model()),
                right: Box::new(right.model()),
            },
            ASTExpression::BiggerExpression { left, right } => AstModel::BiggerExpression {
                left: Box::new(left.model()),
                right: Box::new(right.model()),
            },
            ASTExpression::LessExpression { left, right } => AstModel::LessExpression {
                left: Box::new(left.model()),
                right: Box::new(right.model()),
            },
            ASTExpression::NameReference(name) => AstModel::NameReference(name@),
            ASTExpression::BoolLiteral(b) => AstModel::BoolLiteral(*b),
            ASTExpression::NumberLiteral(text) => AstModel::NumberLiteral(text@),
        }
    }
}

impl View for ASTExpression {
    type V = AstModel;

    open spec fn view(&self) -> AstModel {
        self.model()
    }
}

pub open spec fn view_expressions(es: Seq<ASTExpression>) -> Seq<AstModel> {
    es.map_values(|e: ASTExpression| e@)
}

} // verus!
