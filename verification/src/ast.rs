//! The syntax tree that the parser builds, and its mathematical view.
use vstd::prelude::*;

verus! {

/// A formal parameter of a `def` or a `lambda`.
#[derive(Debug)]
pub enum Parameter {
    Normal(String),
    /// `*name`
    Args(String),
    /// `**name`
    Kwargs(String),
}

/// A node of the syntax tree.
#[derive(Debug)]
#[allow(inconsistent_fields)]
pub enum AstNode {
    Program(Vec<AstNode>),
    Assign { name: String, value: Box<AstNode> },
    MultiAssign { names: Vec<String>, values: Vec<AstNode> },
    AttributeAssign { object: Box<AstNode>, attr: String, value: Box<AstNode> },
    /// `object[index] = value`.
    IndexAssign { object: Box<AstNode>, index: Box<AstNode>, value: Box<AstNode> },
    Call { func: Box<AstNode>, args: Vec<AstNode> },
    /// Instantiation of a class declared in the same program.
    Instance { class: String, args: Vec<AstNode> },
    If { cond: Box<AstNode>, body: Vec<AstNode>, orelse: Vec<AstNode> },
    For { var: String, iter: Box<AstNode>, body: Vec<AstNode> },
    Return(Option<Box<AstNode>>),
    Identifier(String),
    Integer(i64),
    /// A decimal literal, held as its normalized decimal text.
    Float(String),
    String(String),
    Def { name: String, params: Vec<Parameter>, body: Vec<AstNode> },
    Bool(bool),
    BinaryOp { left: Box<AstNode>, op: String, right: Box<AstNode> },
    UnaryOp { op: String, expr: Box<AstNode> },
    Lambda { params: Vec<Parameter>, body: Box<AstNode> },
    Paren(Box<AstNode>),
    /// The `None` literal.
    NoneLiteral,
    Break,
    Continue,
    List(Vec<AstNode>),
    Class { name: String, bases: Vec<String>, body: Vec<AstNode> },
    Dict(Vec<(AstNode, AstNode)>),
    /// A set display `{a, b}`.
    SetLiteral(Vec<AstNode>),
    Tuple(Vec<AstNode>),
    /// A range `start:end[:step]`.
    Range { start: Box<AstNode>, end: Box<AstNode>, step: Option<Box<AstNode>> },
    Index { value: Box<AstNode>, index: Box<AstNode> },
    Slice {
        value: Box<AstNode>,
        start: Option<Box<AstNode>>,
        end: Option<Box<AstNode>>,
        step: Option<Box<AstNode>>,
    },
    Attribute { value: Box<AstNode>, attr: String },
    Import { module: String, alias: Option<String> },
    ImportFrom { module: String, names: Vec<(String, Option<String>)> },
    Pass,
}


/// The mathematical view of a `Parameter`.
pub enum SpecParam {
    Normal(Seq<char>),
    Args(Seq<char>),
    Kwargs(Seq<char>),
}

/// The mathematical view of an `AstNode`: texts become `Seq<char>`, vectors become `Seq`.
#[allow(inconsistent_fields)]
pub enum SpecAst {
    Program(Seq<SpecAst>),
    Assign { name: Seq<char>, value: Box<SpecAst> },
    MultiAssign { names: Seq<Seq<char>>, values: Seq<SpecAst> },
    AttributeAssign { object: Box<SpecAst>, attr: Seq<char>, value: Box<SpecAst> },
    IndexAssign { object: Box<SpecAst>, index: Box<SpecAst>, value: Box<SpecAst> },
    Call { func: Box<SpecAst>, args: Seq<SpecAst> },
    Instance { class: Seq<char>, args: Seq<SpecAst> },
    If { cond: Box<SpecAst>, body: Seq<SpecAst>, orelse: Seq<SpecAst> },
    For { var: Seq<char>, iter: Box<SpecAst>, body: Seq<SpecAst> },
    Return(Option<Box<SpecAst>>),
    Identifier(Seq<char>),
    Integer(i64),
    Float(Seq<char>),
    String(Seq<char>),
    Def { name: Seq<char>, params: Seq<SpecParam>, body: Seq<SpecAst> },
    Bool(bool),
    BinaryOp { left: Box<SpecAst>, op: Seq<char>, right: Box<SpecAst> },
    UnaryOp { op: Seq<char>, expr: Box<SpecAst> },
    Lambda { params: Seq<SpecParam>, body: Box<SpecAst> },
    Paren(Box<SpecAst>),
    NoneLiteral,
    Break,
    Continue,
    List(Seq<SpecAst>),
    Class { name: Seq<char>, bases: Seq<Seq<char>>, body: Seq<SpecAst> },
    Dict(Seq<(SpecAst, SpecAst)>),
    SetLiteral(Seq<SpecAst>),
    Tuple(Seq<SpecAst>),
    Range { start: Box<SpecAst>, end: Box<SpecAst>, step: Option<Box<SpecAst>> },
    Index { value: Box<SpecAst>, index: Box<SpecAst> },
    Slice {
        value: Box<SpecAst>,
        start: Option<Box<SpecAst>>,
        end: Option<Box<SpecAst>>,
        step: Option<Box<SpecAst>>,
    },
    Attribute { value: Box<SpecAst>, attr: Seq<char> },
    Import { module: Seq<char>, alias: Option<Seq<char>> },
    ImportFrom { module: Seq<char>, names: Seq<(Seq<char>, Option<Seq<char>>)> },
    Pass,
}

/// The view of a parameter.
pub open spec fn param_view(p: Parameter) -> SpecParam {
    match p {
        Parameter::Normal(s) => SpecParam::Normal(s@),
        Parameter::Args(s) => SpecParam::Args(s@),
        Parameter::Kwargs(s) => SpecParam::Kwargs(s@),
    }
}

/// The views of a sequence of parameters.
pub open spec fn params_view(s: Seq<Parameter>) -> Seq<SpecParam> {
    s.map_values(|p: Parameter| param_view(p))
}

/// The texts of a sequence of strings.
pub open spec fn strings_view(s: Seq<String>) -> Seq<Seq<char>> {
    s.map_values(|x: String| x@)
}

/// The text of an optional string.
pub open spec fn opt_string_view(o: Option<String>) -> Option<Seq<char>> {
    match o {
        Some(s) => Some(s@),
        None => None,
    }
}

/// The views of the names of a `from ... import` statement, with their aliases.
pub open spec fn import_names_view(s: Seq<(String, Option<String>)>) -> Seq<(Seq<char>, Option<Seq<char>>)> {
    s.map_values(|p: (String, Option<String>)| (p.0@, opt_string_view(p.1)))
}

/// The view of a node.
pub open spec fn node_view(n: AstNode) -> SpecAst
    decreases n,
{
    match n {
        AstNode::Program(v) => SpecAst::Program(nodes_view(v@)),
        AstNode::Assign { name, value } => SpecAst::Assign { name: name@, value: Box::new(node_view(*value)) },
        AstNode::MultiAssign { names, values } => SpecAst::MultiAssign {
            names: strings_view(names@),
            values: nodes_view(values@),
        },
        AstNode::AttributeAssign { object, attr, value } => SpecAst::AttributeAssign {
            object: Box::new(node_view(*object)),
            attr: attr@,
            value: Box::new(node_view(*value)),
        },
        AstNode::IndexAssign { object, index, value } => SpecAst::IndexAssign {
            object: Box::new(node_view(*object)),
            index: Box::new(node_view(*index)),
            value: Box::new(node_view(*value)),
        },
        AstNode::Range { start, end, step } => SpecAst::Range {
            start: Box::new(node_view(*start)),
            end: Box::new(node_view(*end)),
            step: match step {
                Some(b) => Some(Box::new(node_view(*b))),
                None => None,
            },
        },
        AstNode::Call { func, args } => SpecAst::Call {
            func: Box::new(node_view(*func)),
            args: nodes_view(args@),
        },
        AstNode::Instance { class, args } => SpecAst::Instance {
            class: class@,
            args: nodes_view(args@),
        },
        AstNode::If { cond, body, orelse } => SpecAst::If {
            cond: Box::new(node_view(*cond)),
            body: nodes_view(body@),
            orelse: nodes_view(orelse@),
        },
        AstNode::For { var, iter, body } => SpecAst::For {
            var: var@,
            iter: Box::new(node_view(*iter)),
            body: nodes_view(body@),
        },
        AstNode::Return(v) => SpecAst::Return(
            match v {
                Some(b) => Some(Box::new(node_view(*b))),
                None => None,
            },
        ),
        AstNode::Identifier(s) => SpecAst::Identifier(s@),
        AstNode::Integer(n) => SpecAst::Integer(n),
        AstNode::Float(s) => SpecAst::Float(s@),
        AstNode::String(s) => SpecAst::String(s@),
        AstNode::Def { name, params, body } => SpecAst::Def {
            name: name@,
            params: params_view(params@),
            body: nodes_view(body@),
        },
        AstNode::Bool(b) => SpecAst::Bool(b),
        AstNode::BinaryOp { left, op, right } => SpecAst::BinaryOp {
            left: Box::new(node_view(*left)),
            op: op@,
            right: Box::new(node_view(*right)),
        },
        AstNode::UnaryOp { op, expr } => SpecAst::UnaryOp { op: op@, expr: Box::new(node_view(*expr)) },
        AstNode::Lambda { params, body } => SpecAst::Lambda {
            params: params_view(params@),
            body: Box::new(node_view(*body)),
        },
        AstNode::Paren(e) => SpecAst::Paren(Box::new(node_view(*e))),
        AstNode::NoneLiteral => SpecAst::NoneLiteral,
        AstNode::Break => SpecAst::Break,
        AstNode::Continue => SpecAst::Continue,
        AstNode::List(v) => SpecAst::List(
            nodes_view(v@),
        ),
        AstNode::Class { name, bases, body } => SpecAst::Class {
            name: name@,
            bases: strings_view(bases@),
            body: nodes_view(body@),
        },
        AstNode::Dict(v) => SpecAst::Dict(pairs_view(v@)),
        AstNode::SetLiteral(v) => SpecAst::SetLiteral(
            nodes_view(v@),
        ),
        AstNode::Tuple(v) => SpecAst::Tuple(
            nodes_view(v@),
        ),
        AstNode::Index { value, index } => SpecAst::Index {
            value: Box::new(node_view(*value)),
            index: Box::new(node_view(*index)),
        },
        AstNode::Slice { value, start, end, step } => SpecAst::Slice {
            value: Box::new(node_view(*value)),
            start: match start {
                Some(b) => Some(Box::new(node_view(*b))),
                None => None,
            },
            end: match end {
                Some(b) => Some(Box::new(node_view(*b))),
                None => None,
            },
            step: match step {
                Some(b) => Some(Box::new(node_view(*b))),
                None => None,
            },
        },
        AstNode::Attribute { value, attr } => SpecAst::Attribute { value: Box::new(node_view(*value)), attr: attr@ },
        AstNode::Import { module, alias } => SpecAst::Import { module: module@, alias: opt_string_view(alias) },
        AstNode::ImportFrom { module, names } => SpecAst::ImportFrom {
            module: module@,
            names: import_names_view(names@),
        },
        AstNode::Pass => SpecAst::Pass,
    }
}

/// The views of a sequence of nodes.
pub open spec fn nodes_view(s: Seq<AstNode>) -> Seq<SpecAst>
    decreases s,
{
    Seq::new(s.len(), |i: int| if 0 <= i < s.len() { node_view(s[i]) } else { SpecAst::Pass })
}

/// The views of a sequence of pairs of nodes.
pub open spec fn pairs_view(s: Seq<(AstNode, AstNode)>) -> Seq<(SpecAst, SpecAst)>
    decreases s,
{
    Seq::new(
        s.len(),
        |i: int|
            if 0 <= i < s.len() {
                (node_view(s[i].0), node_view(s[i].1))
            } else {
                (SpecAst::Pass, SpecAst::Pass)
            },
    )
}

impl View for AstNode {
    type V = SpecAst;

    open spec fn view(&self) -> SpecAst {
        node_view(*self)
    }
}

impl View for Parameter {
    type V = SpecParam;

    open spec fn view(&self) -> SpecParam {
        param_view(*self)
    }
}


/// An attribute node's view is an attribute view of its parts, and only such a node's view is one.
pub proof fn lemma_view_attribute(n: AstNode)
    ensures
        (node_view(n) is Attribute) <==> (n is Attribute),
{
    match n {
        AstNode::Program(..) => {},
        AstNode::Assign { .. } => {},
        AstNode::MultiAssign { .. } => {},
        AstNode::AttributeAssign { .. } => {},
        AstNode::IndexAssign { .. } => {},
        AstNode::Range { .. } => {},
        AstNode::Call { .. } => {},
        AstNode::Instance { .. } => {},
        AstNode::If { .. } => {},
        AstNode::For { .. } => {},
        AstNode::Return(..) => {},
        AstNode::Identifier(..) => {},
        AstNode::Integer(..) => {},
        AstNode::Float(..) => {},
        AstNode::String(..) => {},
        AstNode::Def { .. } => {},
        AstNode::Bool(..) => {},
        AstNode::BinaryOp { .. } => {},
        AstNode::UnaryOp { .. } => {},
        AstNode::Lambda { .. } => {},
        AstNode::Paren(..) => {},
        AstNode::NoneLiteral => {},
        AstNode::Break => {},
        AstNode::Continue => {},
        AstNode::List(..) => {},
        AstNode::Class { .. } => {},
        AstNode::Dict(..) => {},
        AstNode::SetLiteral(..) => {},
        AstNode::Tuple(..) => {},
        AstNode::Index { .. } => {},
        AstNode::Slice { .. } => {},
        AstNode::Attribute { .. } => {},
        AstNode::Import { .. } => {},
        AstNode::ImportFrom { .. } => {},
        AstNode::Pass => {},
    }
}

/// A node and its view are of the same variant; an identifier's view holds its text.
pub proof fn lemma_view_variant(n: AstNode)
    ensures
        (node_view(n) is Identifier) <==> (n is Identifier),
        (node_view(n) is Paren) <==> (n is Paren),
        (node_view(n) is If) <==> (n is If),
        (node_view(n) is BinaryOp) <==> (n is BinaryOp),
        (node_view(n) is Call) <==> (n is Call),
        (node_view(n) is Index) <==> (n is Index),
        n is Identifier ==> node_view(n) == SpecAst::Identifier(n->Identifier_0@),
{
    match n {
        AstNode::Program(..) => {},
        AstNode::Assign { .. } => {},
        AstNode::MultiAssign { .. } => {},
        AstNode::AttributeAssign { .. } => {},
        AstNode::IndexAssign { .. } => {},
        AstNode::Range { .. } => {},
        AstNode::Call { .. } => {},
        AstNode::Instance { .. } => {},
        AstNode::If { .. } => {},
        AstNode::For { .. } => {},
        AstNode::Return(..) => {},
        AstNode::Identifier(..) => {},
        AstNode::Integer(..) => {},
        AstNode::Float(..) => {},
        AstNode::String(..) => {},
        AstNode::Def { .. } => {},
        AstNode::Bool(..) => {},
        AstNode::BinaryOp { .. } => {},
        AstNode::UnaryOp { .. } => {},
        AstNode::Lambda { .. } => {},
        AstNode::Paren(..) => {},
        AstNode::NoneLiteral => {},
        AstNode::Break => {},
        AstNode::Continue => {},
        AstNode::List(..) => {},
        AstNode::Class { .. } => {},
        AstNode::Dict(..) => {},
        AstNode::SetLiteral(..) => {},
        AstNode::Tuple(..) => {},
        AstNode::Index { .. } => {},
        AstNode::Slice { .. } => {},
        AstNode::Attribute { .. } => {},
        AstNode::Import { .. } => {},
        AstNode::ImportFrom { .. } => {},
        AstNode::Pass => {},
    }
}

} // verus!
