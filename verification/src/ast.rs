//! Abstract syntax tree of the state-machine description language.
//!
//! The tree is produced by an external parser and consumed by the
//! control-flow conversion in [`crate::cfg`] and the code generation in
//! [`crate::codegen`]. Every node kind has a mathematical view
//! ([`NodeView`]) over which all contracts of this crate are stated.

use vstd::prelude::*;

verus! {

/// Binary operator verbs: arithmetic, bitwise, shift, relational and
/// equality operators, plus a derived `Neg` wrapper standing for the
/// logical negation of a relational or equality verb.
#[derive(Debug, PartialEq)]
pub enum BinVerb {
    Plus,
    Minus,
    Times,
    Divide,
    And,
    Or,
    Xor,
    SmallerThan,
    LargerThan,
    SmallerOrEqual,
    LargerOrEqual,
    LeftShift,
    RightShift,
    Equal,
    NotEqual,
    Neg(Box<BinVerb>),
    Empty,
}

/// Unary operator verbs.
#[derive(Debug, PartialEq, Eq, Clone, Copy)]
pub enum UniVerb {
    Not,
    Tiled,
    Minus,
}

/// Labels attached to instruction-source statements of the DSL.
#[derive(Debug, PartialEq, Eq, Clone, Copy)]
pub enum Label {
    ResultRewrite,
    InstSource,
    Commit,
}

/// The control-transfer keywords of the DSL.
#[derive(Debug, PartialEq, Eq, Clone, Copy)]
pub enum DSLKeyword {
    Transition,
    Reset,
    Complete,
}

/// One node of the AST.
///
/// A decimal literal carries its source text: nothing in the conversion or
/// the generation ever reads the numeric value of a decimal.
#[derive(Debug, PartialEq)]
pub enum ASTNode {
    Top(Vec<ASTNode>),
    TypedIdentifier { aql_type: String, variable: String },
    Integer(i32),
    Decimal(String),
    Str(String),
    Ident(String),
    ConstVal(String),
    QualifiedName { names: Vec<ASTNode> },
    VariableDeclaration { typed_identifier: Box<ASTNode>, expr: Option<Box<ASTNode>> },
    Assignment { name: String, expr: Box<ASTNode> },
    Declaration(Box<ASTNode>),
    Transition { action: String, ident: Box<ASTNode> },
    StructureDeclaration { s_type: String, name: String, statement: Box<ASTNode> },
    InternalFuncDecl(Box<ASTNode>),
    Block(Vec<ASTNode>),
    Expr(Expr),
    Conditional { expr: Box<ASTNode>, if_blk: Box<ASTNode>, else_blk: Option<Box<ASTNode>> },
    BinOp { verb: BinVerb, lhs: Box<ASTNode>, rhs: Box<ASTNode> },
    UnuaryOp { verb: UniVerb, term: Box<ASTNode> },
}

/// Expression lists of the DSL.
#[derive(Debug, PartialEq)]
pub enum Expr {
    List(Vec<Expr>),
    DSLTerm,
}

/// The mathematical view of an [`ASTNode`]: strings become character
/// sequences and vectors become sequences, so that two nodes with equal
/// views carry the same information.
#[verifier::ext_equal]
pub enum NodeView {
    Top(Seq<NodeView>),
    TypedIdentifier { aql_type: Seq<char>, variable: Seq<char> },
    Integer(int),
    Decimal(Seq<char>),
    Str(Seq<char>),
    Ident(Seq<char>),
    ConstVal(Seq<char>),
    QualifiedName { names: Seq<NodeView> },
    VariableDeclaration { typed_identifier: Box<NodeView>, expr: Option<Box<NodeView>> },
    Assignment { name: Seq<char>, expr: Box<NodeView> },
    Declaration(Box<NodeView>),
    Transition { action: Seq<char>, ident: Box<NodeView> },
    StructureDeclaration { s_type: Seq<char>, name: Seq<char>, statement: Box<NodeView> },
    InternalFuncDecl(Box<NodeView>),
    Block(Seq<NodeView>),
    Expr(ExprView),
    Conditional { expr: Box<NodeView>, if_blk: Box<NodeView>, else_blk: Option<Box<NodeView>> },
    BinOp { verb: BinVerb, lhs: Box<NodeView>, rhs: Box<NodeView> },
    UnuaryOp { verb: UniVerb, term: Box<NodeView> },
}

/// The mathematical view of an [`Expr`].
#[verifier::ext_equal]
pub enum ExprView {
    List(Seq<ExprView>),
    DSLTerm,
}

/// The views of a sequence of AST nodes, element by element.
pub open spec fn nodes_view(s: Seq<ASTNode>) -> Seq<NodeView>
    decreases s,
{
    if s.len() == 0 {
        Seq::empty()
    } else {
        nodes_view(s.drop_last()).push(s.last()@)
    }
}

/// The views of a sequence of expressions, element by element.
pub open spec fn exprs_view(s: Seq<Expr>) -> Seq<ExprView>
    decreases s,
{
    if s.len() == 0 {
        Seq::empty()
    } else {
        exprs_view(s.drop_last()).push(s.last()@)
    }
}

/// A sequence of nodes is viewed element by element: the view has the
/// same length, and each element of the view is the view of the
/// corresponding node.
pub broadcast proof fn lemma_nodes_view(s: Seq<ASTNode>)
    ensures
        (#[trigger] nodes_view(s)).len() == s.len(),
        forall|i: int| 0 <= i < s.len() ==> nodes_view(s)[i] == s[i]@,
    decreases s,
{
    if s.len() > 0 {
        lemma_nodes_view(s.drop_last());
        assert(nodes_view(s) == nodes_view(s.drop_last()).push(s.last()@));
        assert forall|i: int| 0 <= i < s.len() implies nodes_view(s)[i] == s[i]@ by {
            if i < s.len() - 1 {
                assert(s.drop_last()[i] == s[i]);
            }
        }
    }
}

/// A sequence of expressions is viewed element by element.
pub broadcast proof fn lemma_exprs_view(s: Seq<Expr>)
    ensures
        (#[trigger] exprs_view(s)).len() == s.len(),
        forall|i: int| 0 <= i < s.len() ==> exprs_view(s)[i] == s[i]@,
    decreases s,
{
    if s.len() > 0 {
        lemma_exprs_view(s.drop_last());
        assert(exprs_view(s) == exprs_view(s.drop_last()).push(s.last()@));
        assert forall|i: int| 0 <= i < s.len() implies exprs_view(s)[i] == s[i]@ by {
            if i < s.len() - 1 {
                assert(s.drop_last()[i] == s[i]);
            }
        }
    }
}

impl View for Expr {
    type V = ExprView;

    open spec fn view(&self) -> ExprView
        decreases self,
    {
        match self {
            Expr::List(v) => ExprView::List(exprs_view(v@)),
            Expr::DSLTerm => ExprView::DSLTerm,
        }
    }
}

impl View for ASTNode {
    type V = NodeView;

    open spec fn view(&self) -> NodeView
        decreases self,
    {
        match self {
            ASTNode::Top(v) => NodeView::Top(nodes_view(v@)),
            ASTNode::TypedIdentifier { aql_type, variable } => NodeView::TypedIdentifier {
                aql_type: aql_type@,
                variable: variable@,
            },
            ASTNode::Integer(i) => NodeView::Integer(*i as int),
            ASTNode::Decimal(s) => NodeView::Decimal(s@),
            ASTNode::Str(s) => NodeView::Str(s@),
            ASTNode::Ident(s) => NodeView::Ident(s@),
            ASTNode::ConstVal(s) => NodeView::ConstVal(s@),
            ASTNode::QualifiedName { names } => NodeView::QualifiedName {
                names: nodes_view(names@),
            },
            ASTNode::VariableDeclaration { typed_identifier, expr } => NodeView::VariableDeclaration {
                typed_identifier: Box::new((**typed_identifier)@),
                expr: (match expr {
                    Some(e) => Some(Box::new((**e)@)),
                    None => None,
                }),
            },
            ASTNode::Assignment { name, expr } => NodeView::Assignment {
                name: name@,
                expr: Box::new((**expr)@),
            },
            ASTNode::Declaration(d) => NodeView::Declaration(Box::new((**d)@)),
            ASTNode::Transition { action, ident } => NodeView::Transition {
                action: action@,
                ident: Box::new((**ident)@),
            },
            ASTNode::StructureDeclaration { s_type, name, statement } => NodeView::StructureDeclaration {
                s_type: s_type@,
                name: name@,
                statement: Box::new((**statement)@),
            },
            ASTNode::InternalFuncDecl(d) => NodeView::InternalFuncDecl(Box::new((**d)@)),
            ASTNode::Block(v) => NodeView::Block(nodes_view(v@)),
            ASTNode::Expr(e) => NodeView::Expr(e@),
            ASTNode::Conditional { expr, if_blk, else_blk } => NodeView::Conditional {
                expr: Box::new((**expr)@),
                if_blk: Box::new((**if_blk)@),
                else_blk: (match else_blk {
                    Some(e) => Some(Box::new((**e)@)),
                    None => None,
                }),
            },
            ASTNode::BinOp { verb, lhs, rhs } => NodeView::BinOp {
                verb: *verb,
                lhs: Box::new((**lhs)@),
                rhs: Box::new((**rhs)@),
            },
            ASTNode::UnuaryOp { verb, term } => NodeView::UnuaryOp {
                verb: *verb,
                term: Box::new((**term)@),
            },
        }
    }
}

impl Clone for BinVerb {
    /// A clone of a verb equals the verb.
    fn clone(&self) -> (res: Self)
        ensures
            res == *self,
        decreases self,
    {
        match self {
            BinVerb::Plus => BinVerb::Plus,
            BinVerb::Minus => BinVerb::Minus,
            BinVerb::Times => BinVerb::Times,
            BinVerb::Divide => BinVerb::Divide,
            BinVerb::And => BinVerb::And,
            BinVerb::Or => BinVerb::Or,
            BinVerb::Xor => BinVerb::Xor,
            BinVerb::SmallerThan => BinVerb::SmallerThan,
            BinVerb::LargerThan => BinVerb::LargerThan,
            BinVerb::SmallerOrEqual => BinVerb::SmallerOrEqual,
            BinVerb::LargerOrEqual => BinVerb::LargerOrEqual,
            BinVerb::LeftShift => BinVerb::LeftShift,
            BinVerb::RightShift => BinVerb::RightShift,
            BinVerb::Equal => BinVerb::Equal,
            BinVerb::NotEqual => BinVerb::NotEqual,
            BinVerb::Neg(v) => BinVerb::Neg(Box::new((&**v).clone())),
            BinVerb::Empty => BinVerb::Empty,
        }
    }
}

/// Clones every node of a vector of AST nodes; the clone has the same
/// view as the original vector.
pub fn clone_nodes(v: &Vec<ASTNode>) -> (res: Vec<ASTNode>)
    ensures
        nodes_view(res@) == nodes_view(v@),
        res@.len() == v@.len(),
    decreases v,
{
    let mut res: Vec<ASTNode> = Vec::new();
    let n = v.len();
    let mut i: usize = 0;
    while i < n
        invariant
            i <= n,
            n == v.len(),
            res@.len() == i,
            forall|k: int| 0 <= k < i ==> res@[k]@ == v@[k]@,
        decreases n - i,
    {
        res.push(v[i].clone());
        i += 1;
    }
    proof {
        lemma_nodes_view(res@);
        lemma_nodes_view(v@);
        assert(nodes_view(res@) =~= nodes_view(v@));
    }
    res
}

/// Clones every expression of a vector; the clone has the same view as
/// the original vector.
pub fn clone_exprs(v: &Vec<Expr>) -> (res: Vec<Expr>)
    ensures
        exprs_view(res@) == exprs_view(v@),
        res@.len() == v@.len(),
    decreases v,
{
    let mut res: Vec<Expr> = Vec::new();
    let n = v.len();
    let mut i: usize = 0;
    while i < n
        invariant
            i <= n,
            n == v.len(),
            res@.len() == i,
            forall|k: int| 0 <= k < i ==> res@[k]@ == v@[k]@,
        decreases n - i,
    {
        res.push(v[i].clone());
        i += 1;
    }
    proof {
        lemma_exprs_view(res@);
        lemma_exprs_view(v@);
        assert(exprs_view(res@) =~= exprs_view(v@));
    }
    res
}

impl Clone for Expr {
    /// A clone of an expression has the same view as the expression.
    fn clone(&self) -> (res: Self)
        ensures
            res@ == self@,
        decreases self,
    {
        match self {
            Expr::List(v) => Expr::List(clone_exprs(v)),
            Expr::DSLTerm => Expr::DSLTerm,
        }
    }
}

impl Clone for ASTNode {
    /// A clone of an AST node has the same view as the node.
    fn clone(&self) -> (res: Self)
        ensures
            res@ == self@,
        decreases self,
    {
        match self {
            ASTNode::Top(v) => ASTNode::Top(clone_nodes(v)),
            ASTNode::TypedIdentifier { aql_type, variable } => ASTNode::TypedIdentifier {
                aql_type: aql_type.clone(),
                variable: variable.clone(),
            },
            ASTNode::Integer(i) => ASTNode::Integer(*i),
            ASTNode::Decimal(s) => ASTNode::Decimal(s.clone()),
            ASTNode::Str(s) => ASTNode::Str(s.clone()),
            ASTNode::Ident(s) => ASTNode::Ident(s.clone()),
            ASTNode::ConstVal(s) => ASTNode::ConstVal(s.clone()),
            ASTNode::QualifiedName { names } => ASTNode::QualifiedName { names: clone_nodes(names) },
            ASTNode::VariableDeclaration { typed_identifier, expr } => ASTNode::VariableDeclaration {
                typed_identifier: Box::new((&**typed_identifier).clone()),
                expr: (match expr {
                    Some(e) => Some(Box::new((&**e).clone())),
                    None => None,
                }),
            },
            ASTNode::Assignment { name, expr } => ASTNode::Assignment {
                name: name.clone(),
                expr: Box::new((&**expr).clone()),
            },
            ASTNode::Declaration(d) => ASTNode::Declaration(Box::new((&**d).clone())),
            ASTNode::Transition { action, ident } => ASTNode::Transition {
                action: action.clone(),
                ident: Box::new((&**ident).clone()),
            },
            ASTNode::StructureDeclaration { s_type, name, statement } => ASTNode::StructureDeclaration {
                s_type: s_type.clone(),
                name: name.clone(),
                statement: Box::new((&**statement).clone()),
            },
            ASTNode::InternalFuncDecl(d) => ASTNode::InternalFuncDecl(Box::new((&**d).clone())),
            ASTNode::Block(v) => ASTNode::Block(clone_nodes(v)),
            ASTNode::Expr(e) => ASTNode::Expr(e.clone()),
            ASTNode::Conditional { expr, if_blk, else_blk } => ASTNode::Conditional {
                expr: Box::new((&**expr).clone()),
                if_blk: Box::new((&**if_blk).clone()),
                else_blk: (match else_blk {
                    Some(e) => Some(Box::new((&**e).clone())),
                    None => None,
                }),
            },
            ASTNode::BinOp { verb, lhs, rhs } => ASTNode::BinOp {
                verb: verb.clone(),
                lhs: Box::new((&**lhs).clone()),
                rhs: Box::new((&**rhs).clone()),
            },
            ASTNode::UnuaryOp { verb, term } => ASTNode::UnuaryOp {
                verb: *verb,
                term: Box::new((&**term).clone()),
            },
        }
    }
}

} // verus!
