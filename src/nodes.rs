use vstd::prelude::*;

use crate::parser::{nv, nvs};

verus! {

/// The syntax tree. Each node owns its children.
#[derive(Debug, PartialEq, Eq)]
pub enum Node {
    Int(i32),
    String(String),
    Program { body: Vec<Node> },
    NamedFunction { id: Box<Node>, parameters: Vec<Node>, body: Vec<Node> },
    UnnamedFunction { parameters: Vec<Node>, body: Vec<Node> },
    Identifier { name: String },
    Assignment { lhs: Box<Node>, rhs: Box<Node> },
    UnaryExpr { operator: String, rhs: Box<Node> },
    BinaryExpr { lhs: Box<Node>, rhs: Box<Node>, operator: String },
    FuncCall { callee: Box<Node>, arguments: Vec<Node> },
    ObjectExpression { object: Box<Node>, property: Box<Node> },
    Empty,
}

/// A copy of a tree, with the same view.
fn copy_node(n: &Node) -> (r: Node)
    ensures
        nv(r) == nv(*n),
    decreases *n, 1nat,
{
    match n {
        Node::Int(v) => Node::Int(*v),
        Node::String(s) => Node::String(s.clone()),
        Node::Program { body } => Node::Program { body: copy_list(body) },
        Node::NamedFunction { id, parameters, body } => Node::NamedFunction {
            id: Box::new(copy_node(&**id)),
            parameters: copy_list(parameters),
            body: copy_list(body),
        },
        Node::UnnamedFunction { parameters, body } => Node::UnnamedFunction {
            parameters: copy_list(parameters),
            body: copy_list(body),
        },
        Node::Identifier { name } => Node::Identifier { name: name.clone() },
        Node::Assignment { lhs, rhs } => Node::Assignment {
            lhs: Box::new(copy_node(&**lhs)),
            rhs: Box::new(copy_node(&**rhs)),
        },
        Node::UnaryExpr { operator, rhs } => Node::UnaryExpr {
            operator: operator.clone(),
            rhs: Box::new(copy_node(&**rhs)),
        },
        Node::BinaryExpr { lhs, rhs, operator } => Node::BinaryExpr {
            lhs: Box::new(copy_node(&**lhs)),
            rhs: Box::new(copy_node(&**rhs)),
            operator: operator.clone(),
        },
        Node::FuncCall { callee, arguments } => Node::FuncCall {
            callee: Box::new(copy_node(&**callee)),
            arguments: copy_list(arguments),
        },
        Node::ObjectExpression { object, property } => Node::ObjectExpression {
            object: Box::new(copy_node(&**object)),
            property: Box::new(copy_node(&**property)),
        },
        Node::Empty => Node::Empty,
    }
}

/// A copy of a list of trees, with the same views.
fn copy_list(v: &Vec<Node>) -> (r: Vec<Node>)
    ensures
        nvs(r@) == nvs(v@),
    decreases v@, 0nat,
{
    let mut r: Vec<Node> = Vec::new();
    let mut i: usize = 0;
    assert(nvs(r@) =~= nvs(v@.take(0)));
    while i < v.len()
        invariant
            i <= v.len(),
            nvs(r@) == nvs(v@.take(i as int)),
        decreases v.len() - i,
    {
        let c = copy_node(&v[i]);
        proof {
            assert(r@.push(c).drop_last() =~= r@);
            assert(v@.take(i + 1).drop_last() =~= v@.take(i as int));
        }
        r.push(c);
        i = i + 1;
    }
    assert(v@.take(v.len() as int) =~= v@);
    r
}

impl Clone for Node {
    /// A deep copy: the same tree.
    fn clone(&self) -> (r: Node)
        ensures
            nv(r) == nv(*self),
    {
        copy_node(self)
    }
}

} // verus!
