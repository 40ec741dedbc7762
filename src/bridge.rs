//! The intermediate representation that language frontends hand to a
//! backend: a module of functions and structs, each node with the span of
//! source text it came from.
use vstd::prelude::*;
use std::ops::Range;

verus! {

#[derive(Debug)]
pub struct BridgeModule {
    pub name: String,
    pub items: Vec<BridgeItem>,
}

#[derive(Debug)]
pub enum BridgeItem {
    Function(BridgeFunction),
    Struct(BridgeStruct),
}

#[derive(Debug)]
pub struct BridgeFunction {
    pub name: String,
    pub args: Vec<BridgeArg>,
    pub ret_type: Option<String>,
    pub body: BridgeBlock,
    pub span: Range<usize>,
}

#[derive(Debug)]
pub struct BridgeStruct {
    pub name: String,
    pub fields: Vec<BridgeField>,
    pub span: Range<usize>,
}

#[derive(Debug)]
pub struct BridgeArg {
    pub name: String,
    pub ty: String,
    pub span: Range<usize>,
}

#[derive(Debug)]
pub struct BridgeField {
    pub name: String,
    pub ty: String,
    pub span: Range<usize>,
}

#[derive(Debug)]
pub struct BridgeBlock {
    pub stmts: Vec<BridgeStmt>,
    pub span: Range<usize>,
}

#[derive(Debug)]
pub enum BridgeStmt {
    Let(BridgeLetStmt),
    Expr(BridgeExpr),
}

#[derive(Debug)]
pub struct BridgeLetStmt {
    pub name: String,
    pub ty: Option<String>,
    pub init: Option<BridgeExpr>,
    pub span: Range<usize>,
}

#[derive(Debug)]
pub enum BridgeExpr {
    Literal(BridgeLiteral),
    Variable(String),
    Call(BridgeCall),
}

#[derive(Debug)]
pub struct BridgeCall {
    pub func: Box<BridgeExpr>,
    pub args: Vec<BridgeExpr>,
    pub span: Range<usize>,
}

#[derive(Debug, PartialEq, Eq)]
pub enum BridgeLiteral {
    Int(i64),
    String(String),
    Bool(bool),
}

} // verus!
