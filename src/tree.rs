use vstd::prelude::*;

verus! {

pub use crate::token::Int;

#[derive(Debug, Clone, Copy, PartialEq, Eq, Structural)]
pub enum NodeKind {
    Assign,
    Equality,
    Nonequality,
    LessOrEqual,
    Less,
    Add,
    Sub,
    Mul,
    Div,
}

#[derive(Debug, PartialEq)]
pub enum Tree {
    Empty,
    Int(Int),
    Val { offset: usize },
    Return(Box<Tree>),
    If(Box<Tree>, Box<Tree>),
    IfElse(Box<Tree>, Box<Tree>, Box<Tree>),
    While(Box<Tree>, Box<Tree>),
    For(Box<Tree>, Box<Tree>, Box<Tree>, Box<Tree>),
    Block(Vec<Tree>),
    Node(NodeKind, Box<Tree>, Box<Tree>),
}

impl Tree {
    pub fn new_tree(kind: NodeKind, lhs: Tree, rhs: Tree) -> (r: Tree)
        ensures
            r == Tree::Node(kind, Box::new(lhs), Box::new(rhs)),
    {
        Tree::Node(kind, Box::new(lhs), Box::new(rhs))
    }

    pub fn new_int(num: Int) -> (r: Tree)
        ensures
            r == Tree::Int(num),
    {
        Tree::Int(num)
    }

    pub fn new_val(offset: usize) -> (r: Tree)
        ensures
            r == (Tree::Val { offset }),
    {
        Tree::Val { offset }
    }

    pub fn new_return(tree: Tree) -> (r: Tree)
        ensures
            r == Tree::Return(Box::new(tree)),
    {
        Tree::Return(Box::new(tree))
    }

    pub fn new_if(expr: Tree, stmt: Tree) -> (r: Tree)
        ensures
            r == Tree::If(Box::new(expr), Box::new(stmt)),
    {
        Tree::If(Box::new(expr), Box::new(stmt))
    }

    pub fn new_if_else(expr: Tree, stmt: Tree, else_stmt: Tree) -> (r: Tree)
        ensures
            r == Tree::IfElse(Box::new(expr), Box::new(stmt), Box::new(else_stmt)),
    {
        Tree::IfElse(Box::new(expr), Box::new(stmt), Box::new(else_stmt))
    }

    pub fn new_while(expr: Tree, stmt: Tree) -> (r: Tree)
        ensures
            r == Tree::While(Box::new(expr), Box::new(stmt)),
    {
        Tree::While(Box::new(expr), Box::new(stmt))
    }

    pub fn new_for(init_expr: Tree, cond_expr: Tree, loop_expr: Tree, stmt: Tree) -> (r: Tree)
        ensures
            r == Tree::For(
                Box::new(init_expr),
                Box::new(cond_expr),
                Box::new(loop_expr),
                Box::new(stmt),
            ),
    {
        Tree::For(Box::new(init_expr), Box::new(cond_expr), Box::new(loop_expr), Box::new(stmt))
    }

    pub fn new_block(stmts: Vec<Tree>) -> (r: Tree)
        ensures
            r == Tree::Block(stmts),
    {
        Tree::Block(stmts)
    }
}

/// Mathematical model of a syntax tree.
pub enum Ast {
    Empty,
    Int(nat),
    Val { offset: nat },
    Return(Box<Ast>),
    If(Box<Ast>, Box<Ast>),
    IfElse(Box<Ast>, Box<Ast>, Box<Ast>),
    While(Box<Ast>, Box<Ast>),
    For(Box<Ast>, Box<Ast>, Box<Ast>, Box<Ast>),
    Block(Seq<Ast>),
    Node(NodeKind, Box<Ast>, Box<Ast>),
}

pub open spec fn model(t: Tree) -> Ast
    decreases t,
{
    match t {
        Tree::Empty => Ast::Empty,
        Tree::Int(n) => Ast::Int(n as nat),
        Tree::Val { offset } => Ast::Val { offset: offset as nat },
        Tree::Return(e) => Ast::Return(Box::new(model(*e))),
        Tree::If(c, s) => Ast::If(Box::new(model(*c)), Box::new(model(*s))),
        Tree::IfElse(c, s, e) => Ast::IfElse(Box::new(model(*c)), Box::new(model(*s)), Box::new(model(*e))),
        Tree::While(c, s) => Ast::While(Box::new(model(*c)), Box::new(model(*s))),
        Tree::For(i, c, l, s) => Ast::For(Box::new(model(*i)), Box::new(model(*c)), Box::new(model(*l)), Box::new(model(*s))),
        Tree::Block(v) => Ast::Block(models(v@)),
        Tree::Node(k, l, r) => Ast::Node(k, Box::new(model(*l)), Box::new(model(*r))),
    }
}

pub open spec fn models(s: Seq<Tree>) -> Seq<Ast>
    decreases s,
{
    if s.len() == 0 {
        Seq::empty()
    } else {
        models(s.drop_last()).push(model(s.last()))
    }
}

/// The model of a list of trees is the list of their models.
pub proof fn lemma_models(v: Seq<Tree>)
    ensures
        models(v) == v.map_values(|t: Tree| model(t)),
    decreases v.len(),
{
    if v.len() > 0 {
        lemma_models(v.drop_last());
        assert(models(v) =~= v.map_values(|t: Tree| model(t)));
    } else {
        assert(models(v) =~= v.map_values(|t: Tree| model(t)));
    }
}

} // verus!
