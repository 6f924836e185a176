//! The syntax tree, and the mathematical model each node is viewed as.
//!
//! Executable nodes own `String`s and `Vec`s. Contracts speak of their
//! views, in which text is a `Seq<char>` and a statement list a `Seq`.

use vstd::prelude::*;

verus! {

/// An identifier as it occurs in source text.
pub type Ident = String;

/// A declared type.
#[derive(Debug, PartialEq, Eq, Clone, Copy, Structural)]
pub enum Type {
    Int,
    Bool,
    String,
}

/// The word for a type, as the language writes it.
pub open spec fn type_text(declared: Type) -> Seq<char> {
    match declared {
        Type::Int => "int"@,
        Type::Bool => "bool"@,
        Type::String => "string"@,
    }
}

impl Type {
    /// The word for the type, as the language writes it.
    pub fn display(&self) -> (text: &'static str)
        ensures
            text@ == type_text(*self),
    {
        match self {
            Type::Int => "int",
            Type::Bool => "bool",
            Type::String => "string",
        }
    }
}

/// The operator of a binary operation.
#[derive(Debug, PartialEq, Eq, Clone, Copy, Structural)]
pub enum BinaryVerb {
    Plus,
    Minus,
    Compare,
}

/// A leaf of an expression: a variable reference or a literal.
#[derive(Debug, PartialEq)]
pub enum TermNode {
    Variable(Ident),
    Boolean(bool),
    Integer(i32),
    String(String),
}

/// An expression tree.
#[derive(Debug, PartialEq)]
pub enum ExpressionNode {
    BinaryOperation { verb: BinaryVerb, lhs: Box<ExpressionNode>, rhs: Box<ExpressionNode> },
    Term(TermNode),
}

/// A statement.
#[derive(Debug, PartialEq)]
pub enum BlockNode {
    VariableDefinition { name: Ident, declared_type: Type, value: ExpressionNode },
    Assignment { lhs: Ident, rhs: ExpressionNode },
    Expression(ExpressionNode),
    Block(Vec<BlockNode>),
    IfStatement { condition: ExpressionNode, block: Vec<BlockNode> },
    Return(ExpressionNode),
}

/// A parameter of a function: its name and declared type.
#[derive(Debug, PartialEq)]
pub struct FunctionParam {
    pub name: Ident,
    pub declared_type: Type,
}

/// A function declaration.
#[derive(Debug, PartialEq)]
pub struct FunctionNode {
    pub name: Ident,
    pub parameters: Vec<FunctionParam>,
    pub return_type: Option<Type>,
    pub block: Vec<BlockNode>,
}

/// A whole program: its functions in source order.
#[derive(Debug, PartialEq)]
pub struct Program {
    pub nodes: Vec<FunctionNode>,
}

/// The model of a [`TermNode`].
pub enum SpecTerm {
    Variable(Seq<char>),
    Boolean(bool),
    Integer(i32),
    String(Seq<char>),
}

/// The model of an [`ExpressionNode`].
pub enum SpecExpr {
    BinaryOperation { verb: BinaryVerb, lhs: Box<SpecExpr>, rhs: Box<SpecExpr> },
    Term(SpecTerm),
}

/// The model of a [`BlockNode`].
pub enum SpecStmt {
    VariableDefinition { name: Seq<char>, declared_type: Type, value: SpecExpr },
    Assignment { lhs: Seq<char>, rhs: SpecExpr },
    Expression(SpecExpr),
    Block(Seq<SpecStmt>),
    IfStatement { condition: SpecExpr, block: Seq<SpecStmt> },
    Return(SpecExpr),
}

/// The model of a [`FunctionParam`].
pub struct SpecParam {
    pub name: Seq<char>,
    pub declared_type: Type,
}

/// The model of a [`FunctionNode`].
pub struct SpecFunction {
    pub name: Seq<char>,
    pub parameters: Seq<SpecParam>,
    pub return_type: Option<Type>,
    pub block: Seq<SpecStmt>,
}

/// The model of a [`Program`].
pub struct SpecProgram {
    pub nodes: Seq<SpecFunction>,
}

impl View for TermNode {
    type V = SpecTerm;

    open spec fn view(&self) -> SpecTerm {
        match self {
            TermNode::Variable(name) => SpecTerm::Variable(name@),
            TermNode::Boolean(b) => SpecTerm::Boolean(*b),
            TermNode::Integer(i) => SpecTerm::Integer(*i),
            TermNode::String(s) => SpecTerm::String(s@),
        }
    }
}

/// The model of an expression tree.
pub open spec fn expr_view(expr: ExpressionNode) -> SpecExpr
    decreases expr,
{
    match expr {
        ExpressionNode::BinaryOperation { verb, lhs, rhs } => SpecExpr::BinaryOperation {
            verb,
            lhs: Box::new(expr_view(*lhs)),
            rhs: Box::new(expr_view(*rhs)),
        },
        ExpressionNode::Term(term) => SpecExpr::Term(term@),
    }
}

impl View for ExpressionNode {
    type V = SpecExpr;

    open spec fn view(&self) -> SpecExpr {
        expr_view(*self)
    }
}

/// The model of one statement.
pub open spec fn stmt_view(stmt: BlockNode) -> SpecStmt
    decreases stmt,
{
    match stmt {
        BlockNode::VariableDefinition { name, declared_type, value } => SpecStmt::VariableDefinition {
            name: name@,
            declared_type,
            value: value@,
        },
        BlockNode::Assignment { lhs, rhs } => SpecStmt::Assignment { lhs: lhs@, rhs: rhs@ },
        BlockNode::Expression(expr) => SpecStmt::Expression(expr@),
        BlockNode::Block(body) => SpecStmt::Block(stmts_view(body@)),
        BlockNode::IfStatement { condition, block } => SpecStmt::IfStatement {
            condition: condition@,
            block: stmts_view(block@),
        },
        BlockNode::Return(expr) => SpecStmt::Return(expr@),
    }
}

/// The model of a statement list: the model of each statement, in order.
pub open spec fn stmts_view(stmts: Seq<BlockNode>) -> Seq<SpecStmt>
    decreases stmts,
{
    Seq::new(
        stmts.len(),
        |i: int|
            if 0 <= i < stmts.len() {
                stmt_view(stmts[i])
            } else {
                arbitrary()
            },
    )
}

impl View for BlockNode {
    type V = SpecStmt;

    open spec fn view(&self) -> SpecStmt {
        stmt_view(*self)
    }
}

impl View for FunctionParam {
    type V = SpecParam;

    open spec fn view(&self) -> SpecParam {
        SpecParam { name: self.name@, declared_type: self.declared_type }
    }
}

/// The models of a list of parameters, in order.
pub open spec fn params_view(params: Seq<FunctionParam>) -> Seq<SpecParam> {
    params.map_values(|param: FunctionParam| param@)
}

impl View for FunctionNode {
    type V = SpecFunction;

    open spec fn view(&self) -> SpecFunction {
        SpecFunction {
            name: self.name@,
            parameters: params_view(self.parameters@),
            return_type: self.return_type,
            block: stmts_view(self.block@),
        }
    }
}

/// The models of a list of functions, in order.
pub open spec fn functions_view(functions: Seq<FunctionNode>) -> Seq<SpecFunction> {
    functions.map_values(|function: FunctionNode| function@)
}

impl View for Program {
    type V = SpecProgram;

    open spec fn view(&self) -> SpecProgram {
        SpecProgram { nodes: functions_view(self.nodes@) }
    }
}

impl Clone for TermNode {
    fn clone(&self) -> (res: Self)
        ensures
            res@ == self@,
    {
        match self {
            TermNode::Variable(name) => TermNode::Variable(name.clone()),
            TermNode::Boolean(b) => TermNode::Boolean(*b),
            TermNode::Integer(i) => TermNode::Integer(*i),
            TermNode::String(s) => TermNode::String(s.clone()),
        }
    }
}

fn clone_expr(expr: &ExpressionNode) -> (res: ExpressionNode)
    ensures
        res@ == expr@,
    decreases expr,
{
    match expr {
        ExpressionNode::BinaryOperation { verb, lhs, rhs } => ExpressionNode::BinaryOperation {
            verb: *verb,
            lhs: Box::new(clone_expr(lhs)),
            rhs: Box::new(clone_expr(rhs)),
        },
        ExpressionNode::Term(term) => ExpressionNode::Term(term.clone()),
    }
}

impl Clone for ExpressionNode {
    fn clone(&self) -> (res: Self)
        ensures
            res@ == self@,
    {
        clone_expr(self)
    }
}

fn clone_stmt(stmt: &BlockNode) -> (res: BlockNode)
    ensures
        res@ == stmt@,
    decreases stmt,
{
    match stmt {
        BlockNode::VariableDefinition { name, declared_type, value } => {
            BlockNode::VariableDefinition {
                name: name.clone(),
                declared_type: *declared_type,
                value: clone_expr(value),
            }
        },
        BlockNode::Assignment { lhs, rhs } => BlockNode::Assignment {
            lhs: lhs.clone(),
            rhs: clone_expr(rhs),
        },
        BlockNode::Expression(expr) => BlockNode::Expression(clone_expr(expr)),
        BlockNode::Block(body) => BlockNode::Block(clone_stmts(body)),
        BlockNode::IfStatement { condition, block } => BlockNode::IfStatement {
            condition: clone_expr(condition),
            block: clone_stmts(block),
        },
        BlockNode::Return(expr) => BlockNode::Return(clone_expr(expr)),
    }
}

/// Copies a statement list; the copy has the same model.
pub fn clone_stmts(stmts: &Vec<BlockNode>) -> (res: Vec<BlockNode>)
    ensures
        stmts_view(res@) == stmts_view(stmts@),
    decreases stmts,
{
    let mut res: Vec<BlockNode> = Vec::new();
    let mut i: usize = 0;
    while i < stmts.len()
        invariant
            i <= stmts.len(),
            res.len() == i,
            forall|j: int| 0 <= j < i ==> (#[trigger] res[j])@ == stmts[j]@,
        decreases stmts.len() - i,
    {
        let copy = clone_stmt(&stmts[i]);
        res.push(copy);
        i += 1;
    }
    assert(stmts_view(res@) =~= stmts_view(stmts@));
    res
}

impl Clone for BlockNode {
    fn clone(&self) -> (res: Self)
        ensures
            res@ == self@,
    {
        clone_stmt(self)
    }
}

impl Clone for FunctionParam {
    fn clone(&self) -> (res: Self)
        ensures
            res@ == self@,
    {
        FunctionParam { name: self.name.clone(), declared_type: self.declared_type }
    }
}

impl Clone for FunctionNode {
    fn clone(&self) -> (res: Self)
        ensures
            res@ == self@,
    {
        let mut parameters: Vec<FunctionParam> = Vec::new();
        let mut i: usize = 0;
        while i < self.parameters.len()
            invariant
                i <= self.parameters.len(),
                parameters.len() == i,
                forall|j: int| 0 <= j < i ==> (#[trigger] parameters[j])@ == self.parameters[j]@,
            decreases self.parameters.len() - i,
        {
            parameters.push(self.parameters[i].clone());
            i += 1;
        }
        let res = FunctionNode {
            name: self.name.clone(),
            parameters,
            return_type: self.return_type,
            block: clone_stmts(&self.block),
        };
        assert(res@.parameters =~= self@.parameters);
        res
    }
}

impl Clone for Program {
    fn clone(&self) -> (res: Self)
        ensures
            res@ == self@,
    {
        let mut nodes: Vec<FunctionNode> = Vec::new();
        let mut i: usize = 0;
        while i < self.nodes.len()
            invariant
                i <= self.nodes.len(),
                nodes.len() == i,
                forall|j: int| 0 <= j < i ==> (#[trigger] nodes[j])@ == self.nodes[j]@,
            decreases self.nodes.len() - i,
        {
            nodes.push(self.nodes[i].clone());
            i += 1;
        }
        let res = Program { nodes };
        assert(res@.nodes =~= self@.nodes);
        res
    }
}

} // verus!
