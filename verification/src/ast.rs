//! The syntax tree: literals, expressions, statements and nodes, each with the
//! view that contracts speak of.

use crate::decimal::Decimal;
use crate::number::{DecimalView, Number};
use crate::token::TokenType;
use crate::types::{Type, TypeView};
use vstd::prelude::*;

verus! {

broadcast use vstd::std_specs::vec::axiom_vec_index_decreases;

/// A literal value.
#[derive(Debug, PartialEq, Eq)]
pub enum Literal {
    Bool(bool),
    Short(i16),
    Int(i32),
    Large(i64),
    Float(Decimal),
    StringLiteral(String),
    Null,
}

/// An expression.
#[derive(Debug, PartialEq, Eq)]
pub enum Expression {
    Literal(Literal),
    Identifier(String),
    BinaryOp { lhs: Box<Expression>, rhs: Box<Expression>, operator: TokenType },
    CallExpr { name: String, params: Vec<Expression> },
}

/// A statement.
#[derive(Debug, PartialEq, Eq)]
pub enum Statement {
    VariableAssignment { name: String, constant: bool, var_type: Type, value: Expression },
    Function { name: String, params: Vec<(String, Type)>, ret_type: Type, body: Vec<Ast> },
    ImportPath { path: String, is_library: bool },
}

/// One node of the syntax tree: a statement, or an expression that stands
/// where a statement may.
#[derive(Debug, PartialEq, Eq)]
pub enum Ast {
    Expression(Expression),
    Statement(Statement),
}

/// A literal as contracts speak of it.
pub enum LiteralView {
    Bool(bool),
    Short(i16),
    Int(i32),
    Large(i64),
    Float(DecimalView),
    StringLiteral(Seq<char>),
    Null,
}

/// An expression as contracts speak of it.
pub enum ExpressionView {
    Literal(LiteralView),
    Identifier(Seq<char>),
    BinaryOp { lhs: Box<ExpressionView>, rhs: Box<ExpressionView>, operator: TokenType },
    CallExpr { name: Seq<char>, params: Seq<ExpressionView> },
}

/// A statement as contracts speak of it.
pub enum StatementView {
    VariableAssignment {
        name: Seq<char>,
        constant: bool,
        var_type: TypeView,
        value: ExpressionView,
    },
    Function {
        name: Seq<char>,
        params: Seq<(Seq<char>, TypeView)>,
        ret_type: TypeView,
        body: Seq<AstView>,
    },
    ImportPath { path: Seq<char>, is_library: bool },
}

/// A node as contracts speak of it.
pub enum AstView {
    Expression(ExpressionView),
    Statement(StatementView),
}

impl LiteralView {
    /// The number that a numeric literal holds; `None` for the others.
    pub open spec fn number(self) -> Option<Number> {
        match self {
            LiteralView::Short(v) => Some(Number { mantissa: v as int, scale: 0 }),
            LiteralView::Int(v) => Some(Number { mantissa: v as int, scale: 0 }),
            LiteralView::Large(v) => Some(Number { mantissa: v as int, scale: 0 }),
            LiteralView::Float(d) => Some(d.value()),
            _ => None,
        }
    }

    /// The type of the literal; `Void` for `Null`.
    pub open spec fn type_of(self) -> TypeView {
        match self {
            LiteralView::Bool(_) => TypeView::Bool,
            LiteralView::Short(_) => TypeView::Short,
            LiteralView::Int(_) => TypeView::Int,
            LiteralView::Large(_) => TypeView::Large,
            LiteralView::Float(_) => TypeView::Float,
            LiteralView::StringLiteral(_) => TypeView::String,
            LiteralView::Null => TypeView::Void,
        }
    }
}

impl View for Literal {
    type V = LiteralView;

    open spec fn view(&self) -> LiteralView {
        match self {
            Literal::Bool(b) => LiteralView::Bool(*b),
            Literal::Short(v) => LiteralView::Short(*v),
            Literal::Int(v) => LiteralView::Int(*v),
            Literal::Large(v) => LiteralView::Large(*v),
            Literal::Float(d) => LiteralView::Float(d@),
            Literal::StringLiteral(s) => LiteralView::StringLiteral(s@),
            Literal::Null => LiteralView::Null,
        }
    }
}

impl Expression {
    /// The expression as contracts speak of it.
    pub open spec fn model(&self) -> ExpressionView
        decreases self,
    {
        match self {
            Expression::Literal(l) => ExpressionView::Literal(l@),
            Expression::Identifier(s) => ExpressionView::Identifier(s@),
            Expression::BinaryOp { lhs, rhs, operator } => ExpressionView::BinaryOp {
                lhs: Box::new(lhs.model()),
                rhs: Box::new(rhs.model()),
                operator: *operator,
            },
            Expression::CallExpr { name, params } => ExpressionView::CallExpr {
                name: name@,
                params: Seq::new(
                    params.len() as nat,
                    |i: int|
                        if 0 <= i < params.len() {
                            params[i].model()
                        } else {
                            ExpressionView::Literal(LiteralView::Null)
                        },
                ),
            },
        }
    }
}

impl View for Expression {
    type V = ExpressionView;

    open spec fn view(&self) -> ExpressionView {
        self.model()
    }
}

/// The views of a list of expressions, in order.
pub open spec fn expression_views(es: Seq<Expression>) -> Seq<ExpressionView> {
    Seq::new(es.len(), |i: int| es[i]@)
}

/// The views of a parameter list, in order.
pub open spec fn param_views(ps: Seq<(String, Type)>) -> Seq<(Seq<char>, TypeView)> {
    Seq::new(ps.len(), |i: int| (ps[i].0@, ps[i].1@))
}

impl Statement {
    /// The statement as contracts speak of it.
    pub open spec fn model(&self) -> StatementView
        decreases self,
    {
        match self {
            Statement::VariableAssignment {
                name,
                constant,
                var_type,
                value,
            } => StatementView::VariableAssignment {
                name: name@,
                constant: *constant,
                var_type: var_type@,
                value: value@,
            },
            Statement::Function { name, params, ret_type, body } => StatementView::Function {
                name: name@,
                params: param_views(params@),
                ret_type: ret_type@,
                body: Seq::new(
                    body.len() as nat,
                    |i: int|
                        if 0 <= i < body.len() {
                            body[i].model()
                        } else {
                            AstView::Expression(ExpressionView::Literal(LiteralView::Null))
                        },
                ),
            },
            Statement::ImportPath { path, is_library } => StatementView::ImportPath {
                path: path@,
                is_library: *is_library,
            },
        }
    }
}

impl Ast {
    /// The node as contracts speak of it.
    pub open spec fn model(&self) -> AstView
        decreases self,
    {
        match self {
            Ast::Expression(e) => AstView::Expression(e@),
            Ast::Statement(s) => AstView::Statement(s.model()),
        }
    }
}

impl View for Statement {
    type V = StatementView;

    open spec fn view(&self) -> StatementView {
        self.model()
    }
}

impl View for Ast {
    type V = AstView;

    open spec fn view(&self) -> AstView {
        self.model()
    }
}

/// The views of a list of nodes, in order.
pub open spec fn ast_views(nodes: Seq<Ast>) -> Seq<AstView> {
    Seq::new(nodes.len(), |i: int| nodes[i]@)
}

/// The node that marks the end of the input: the null literal.
pub open spec fn end_marker() -> AstView {
    AstView::Expression(ExpressionView::Literal(LiteralView::Null))
}

/// The view of a call is the view of its parts.
pub proof fn lemma_call_view(e: Expression)
    requires
        e is CallExpr,
    ensures
        e@ == (ExpressionView::CallExpr {
            name: e->CallExpr_name@,
            params: expression_views(e->params@),
        }),
{
    assert(e@->params =~= expression_views(e->params@));
}

/// The view of a function declaration is the view of its parts.
pub proof fn lemma_function_view(s: Statement)
    requires
        s is Function,
    ensures
        s@ == (StatementView::Function {
            name: s->Function_name@,
            params: param_views(s->Function_params@),
            ret_type: s->ret_type@,
            body: ast_views(s->body@),
        }),
{
    assert(s@->body =~= ast_views(s->body@));
}

impl Clone for Literal {
    fn clone(&self) -> (r: Literal)
        ensures
            r@ == self@,
    {
        match self {
            Literal::Bool(b) => Literal::Bool(*b),
            Literal::Short(v) => Literal::Short(*v),
            Literal::Int(v) => Literal::Int(*v),
            Literal::Large(v) => Literal::Large(*v),
            Literal::Float(d) => Literal::Float(d.clone()),
            Literal::StringLiteral(s) => Literal::StringLiteral(s.clone()),
            Literal::Null => Literal::Null,
        }
    }
}

impl Expression {
    /// A copy of the expression.
    pub fn duplicate(&self) -> (r: Expression)
        ensures
            r@ == self@,
        decreases self,
    {
        match self {
            Expression::Literal(l) => Expression::Literal(l.clone()),
            Expression::Identifier(s) => Expression::Identifier(s.clone()),
            Expression::BinaryOp { lhs, rhs, operator } => Expression::BinaryOp {
                lhs: Box::new(lhs.duplicate()),
                rhs: Box::new(rhs.duplicate()),
                operator: *operator,
            },
            Expression::CallExpr { name, params } => {
                let mut copies: Vec<Expression> = Vec::new();
                let mut i: usize = 0;
                while i < params.len()
                    invariant
                        decreases_to!(self => params),
                        i <= params.len(),
                        copies.len() == i,
                        forall|j: int| 0 <= j < i ==> copies@[j]@ == params@[j]@,
                    decreases params.len() - i,
                {
                    copies.push(params[i].duplicate());
                    i += 1;
                }
                let r = Expression::CallExpr { name: name.clone(), params: copies };
                proof {
                    lemma_call_view(r);
                    lemma_call_view(*self);
                    assert(expression_views(copies@) =~= expression_views(params@));
                }
                r
            },
        }
    }
}

impl Clone for Expression {
    fn clone(&self) -> (r: Expression)
        ensures
            r@ == self@,
    {
        self.duplicate()
    }
}

impl Statement {
    /// A copy of the statement.
    pub fn duplicate(&self) -> (r: Statement)
        ensures
            r@ == self@,
        decreases self,
    {
        match self {
            Statement::VariableAssignment {
                name,
                constant,
                var_type,
                value,
            } => Statement::VariableAssignment {
                name: name.clone(),
                constant: *constant,
                var_type: var_type.clone(),
                value: value.clone(),
            },
            Statement::Function { name, params, ret_type, body } => {
                let mut param_copies: Vec<(String, Type)> = Vec::new();
                let mut i: usize = 0;
                while i < params.len()
                    invariant
                        i <= params.len(),
                        param_copies.len() == i,
                        forall|j: int|
                            0 <= j < i ==> param_copies@[j].0@ == params@[j].0@
                                && param_copies@[j].1@ == params@[j].1@,
                    decreases params.len() - i,
                {
                    param_copies.push((params[i].0.clone(), params[i].1.clone()));
                    i += 1;
                }
                let mut body_copies: Vec<Ast> = Vec::new();
                let mut k: usize = 0;
                while k < body.len()
                    invariant
                        decreases_to!(self => body),
                        k <= body.len(),
                        body_copies.len() == k,
                        forall|j: int| 0 <= j < k ==> body_copies@[j]@ == body@[j]@,
                    decreases body.len() - k,
                {
                    body_copies.push(body[k].duplicate());
                    k += 1;
                }
                let r = Statement::Function {
                    name: name.clone(),
                    params: param_copies,
                    ret_type: ret_type.clone(),
                    body: body_copies,
                };
                proof {
                    lemma_function_view(r);
                    lemma_function_view(*self);
                    assert(param_views(param_copies@) =~= param_views(params@));
                    assert(ast_views(body_copies@) =~= ast_views(body@));
                }
                r
            },
            Statement::ImportPath { path, is_library } => Statement::ImportPath {
                path: path.clone(),
                is_library: *is_library,
            },
        }
    }
}

impl Clone for Statement {
    fn clone(&self) -> (r: Statement)
        ensures
            r@ == self@,
    {
        self.duplicate()
    }
}

impl Ast {
    /// A copy of the node.
    pub fn duplicate(&self) -> (r: Ast)
        ensures
            r@ == self@,
        decreases self,
    {
        match self {
            Ast::Expression(e) => Ast::Expression(e.clone()),
            Ast::Statement(s) => Ast::Statement(s.duplicate()),
        }
    }
}

impl Clone for Ast {
    fn clone(&self) -> (r: Ast)
        ensures
            r@ == self@,
    {
        self.duplicate()
    }
}

/// The statements and expressions of a block, and the block inside it, if any.
#[derive(Debug, PartialEq, Eq)]
pub struct FunctionBody {
    pub stmts: Vec<Statement>,
    pub exprs: Vec<Expression>,
    pub block: Option<Box<FunctionBody>>,
}

/// A block as contracts speak of it.
pub struct FunctionBodyView {
    pub stmts: Seq<StatementView>,
    pub exprs: Seq<ExpressionView>,
    pub block: Option<Box<FunctionBodyView>>,
}

/// The views of a list of statements, in order.
pub open spec fn statement_views(ss: Seq<Statement>) -> Seq<StatementView> {
    Seq::new(ss.len(), |i: int| ss[i]@)
}

impl FunctionBody {
    /// The block as contracts speak of it.
    pub open spec fn model(&self) -> FunctionBodyView
        decreases self,
    {
        FunctionBodyView {
            stmts: statement_views(self.stmts@),
            exprs: expression_views(self.exprs@),
            block: match self.block {
                Some(b) => Some(Box::new(b.model())),
                None => None,
            },
        }
    }

    /// A block of the given statements and expressions, around `block`.
    pub fn new(stmts: Vec<Statement>, exprs: Vec<Expression>, block: Option<Box<FunctionBody>>) -> (r:
        FunctionBody)
        ensures
            r == (FunctionBody { stmts, exprs, block }),
            r@ == (FunctionBodyView {
                stmts: statement_views(stmts@),
                exprs: expression_views(exprs@),
                block: match block {
                    Some(b) => Some(Box::new(b@)),
                    None => None,
                },
            }),
    {
        FunctionBody { stmts, exprs, block }
    }
}

impl FunctionBody {
    /// A copy of the block.
    pub fn duplicate(&self) -> (r: FunctionBody)
        ensures
            r@ == self@,
        decreases self,
    {
        let mut stmts: Vec<Statement> = Vec::new();
        let mut i: usize = 0;
        while i < self.stmts.len()
            invariant
                i <= self.stmts.len(),
                stmts.len() == i,
                forall|j: int| 0 <= j < i ==> stmts@[j]@ == self.stmts@[j]@,
            decreases self.stmts.len() - i,
        {
            stmts.push(self.stmts[i].clone());
            i += 1;
        }
        let mut exprs: Vec<Expression> = Vec::new();
        let mut k: usize = 0;
        while k < self.exprs.len()
            invariant
                k <= self.exprs.len(),
                exprs.len() == k,
                forall|j: int| 0 <= j < k ==> exprs@[j]@ == self.exprs@[j]@,
            decreases self.exprs.len() - k,
        {
            exprs.push(self.exprs[k].clone());
            k += 1;
        }
        let block = match &self.block {
            Some(b) => Some(Box::new(b.duplicate())),
            None => None,
        };
        assert(statement_views(stmts@) =~= statement_views(self.stmts@));
        assert(expression_views(exprs@) =~= expression_views(self.exprs@));
        FunctionBody { stmts, exprs, block }
    }
}

impl Clone for FunctionBody {
    fn clone(&self) -> (r: FunctionBody)
        ensures
            r@ == self@,
    {
        self.duplicate()
    }
}

impl View for FunctionBody {
    type V = FunctionBodyView;

    open spec fn view(&self) -> FunctionBodyView {
        self.model()
    }
}

/// An operation on two nodes.
#[derive(Debug, PartialEq, Eq)]
pub struct BinaryExpression {
    pub lhs: Box<Ast>,
    pub operator: TokenType,
    pub rhs: Box<Ast>,
}

/// An operation on two nodes as contracts speak of it.
pub struct BinaryExpressionView {
    pub lhs: AstView,
    pub operator: TokenType,
    pub rhs: AstView,
}

impl View for BinaryExpression {
    type V = BinaryExpressionView;

    open spec fn view(&self) -> BinaryExpressionView {
        BinaryExpressionView { lhs: self.lhs@, operator: self.operator, rhs: self.rhs@ }
    }
}

impl Clone for BinaryExpression {
    fn clone(&self) -> (r: BinaryExpression)
        ensures
            r@ == self@,
    {
        BinaryExpression {
            lhs: Box::new(self.lhs.duplicate()),
            operator: self.operator,
            rhs: Box::new(self.rhs.duplicate()),
        }
    }
}

/// The node that stands for a literal on its own: a string becomes the
/// value of a declaration without a name and of type `Void`; a float
/// becomes such a declaration without a value; every other literal becomes
/// the null expression.
pub open spec fn literal_node(lit: LiteralView) -> AstView {
    match lit {
        LiteralView::Float(_) => AstView::Statement(
            StatementView::VariableAssignment {
                name: Seq::empty(),
                constant: false,
                var_type: TypeView::Void,
                value: ExpressionView::Literal(LiteralView::Null),
            },
        ),
        LiteralView::StringLiteral(s) => AstView::Statement(
            StatementView::VariableAssignment {
                name: Seq::empty(),
                constant: false,
                var_type: TypeView::Void,
                value: ExpressionView::Literal(LiteralView::StringLiteral(s)),
            },
        ),
        _ => end_marker(),
    }
}

impl From<Literal> for Ast {
    fn from(literal: Literal) -> (r: Ast)
        ensures
            r@ == literal_node(literal@),
    {
        match literal {
            Literal::Float(_) => Ast::Statement(
                Statement::VariableAssignment {
                    name: String::new(),
                    constant: false,
                    var_type: Type::Void,
                    value: Expression::Literal(Literal::Null),
                },
            ),
            Literal::StringLiteral(val) => Ast::Statement(
                Statement::VariableAssignment {
                    name: String::new(),
                    constant: false,
                    var_type: Type::Void,
                    value: Expression::Literal(Literal::StringLiteral(val)),
                },
            ),
            _ => Ast::Expression(Expression::Literal(Literal::Null)),
        }
    }
}

impl vstd::std_specs::convert::FromSpecImpl<Literal> for Ast {
    open spec fn obeys_from_spec() -> bool {
        false
    }

    open spec fn from_spec(v: Literal) -> Ast {
        Ast::Expression(Expression::Literal(Literal::Null))
    }
}

} // verus!
