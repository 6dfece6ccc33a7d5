use pycn::ast::{AstNode, Parameter};
use pycn::emit::ast_to_python;

fn id(s: &str) -> Box<AstNode> {
    Box::new(AstNode::Identifier(s.to_string()))
}

#[test]
fn statements_take_their_indentation() {
    let n = AstNode::Assign { name: "x".to_string(), value: Box::new(AstNode::Integer(-5)) };
    assert_eq!(ast_to_python(&n, 2), "        x = -5");
}

#[test]
fn empty_bodies_print_pass() {
    let n = AstNode::Def { name: "f".to_string(), params: vec![], body: vec![] };
    assert_eq!(ast_to_python(&n, 0), "def f():\n    pass");
    let c = AstNode::Class { name: "C".to_string(), bases: vec!["A".to_string(), "B".to_string()], body: vec![] };
    assert_eq!(ast_to_python(&c, 1), "    class C(A, B):\n        pass");
}

#[test]
fn parameters_with_stars() {
    let n = AstNode::Lambda {
        params: vec![
            Parameter::Normal("a".to_string()),
            Parameter::Args("r".to_string()),
            Parameter::Kwargs("k".to_string()),
        ],
        body: id("a"),
    };
    assert_eq!(ast_to_python(&n, 0), "lambda a, *r, **k: a");
}

#[test]
fn print_with_percent_keeps_its_form() {
    let call = AstNode::Call {
        func: id("print"),
        args: vec![AstNode::BinaryOp {
            left: Box::new(AstNode::String("\"%d\"".to_string())),
            op: "%".to_string(),
            right: id("n"),
        }],
    };
    assert_eq!(ast_to_python(&call, 1), "    print(\"%d\" % n)");
    let bin = AstNode::BinaryOp {
        left: Box::new(AstNode::Call { func: id("print"), args: vec![AstNode::String("'%s'".to_string())] }),
        op: "%".to_string(),
        right: id("v"),
    };
    assert_eq!(ast_to_python(&bin, 3), "print('%s' % v)");
}

#[test]
fn displays() {
    let t1 = AstNode::Tuple(vec![AstNode::Integer(1)]);
    assert_eq!(ast_to_python(&t1, 0), "(1,)");
    let t2 = AstNode::Tuple(vec![AstNode::Integer(1), AstNode::Integer(2)]);
    assert_eq!(ast_to_python(&t2, 0), "(1, 2)");
    let d = AstNode::Dict(vec![(AstNode::String("'a'".to_string()), AstNode::Bool(true))]);
    assert_eq!(ast_to_python(&d, 0), "{'a': True}");
    let s = AstNode::SetLiteral(vec![AstNode::NoneLiteral, AstNode::Float("0.5".to_string())]);
    assert_eq!(ast_to_python(&s, 0), "{None, 0.5}");
    let l = AstNode::List(vec![]);
    assert_eq!(ast_to_python(&l, 0), "[]");
}

#[test]
fn chinese_quotes_become_ascii() {
    let s = AstNode::String("“你好”".to_string());
    assert_eq!(ast_to_python(&s, 0), "\"你好\"");
}

#[test]
fn slices_and_attributes() {
    let n = AstNode::Slice { value: id("a"), start: None, end: Some(Box::new(AstNode::Integer(3))), step: Some(id("k")) };
    assert_eq!(ast_to_python(&n, 0), "a[:3:k]");
    let m = AstNode::Slice { value: id("a"), start: Some(Box::new(AstNode::Integer(1))), end: None, step: None };
    assert_eq!(ast_to_python(&m, 0), "a[1:]");
    let at = AstNode::AttributeAssign { object: id("self"), attr: "x".to_string(), value: id("y") };
    assert_eq!(ast_to_python(&at, 1), "    self.x = y");
}

#[test]
fn if_with_paren_condition_and_else_block() {
    let n = AstNode::If {
        cond: Box::new(AstNode::Paren(id("c"))),
        body: vec![AstNode::Break],
        orelse: vec![AstNode::Continue, AstNode::Pass],
    };
    assert_eq!(ast_to_python(&n, 0), "if c:\n    break\nelse:\n    continue\n    pass");
}

#[test]
fn imports() {
    let a = AstNode::Import { module: "os".to_string(), alias: Some("o".to_string()) };
    assert_eq!(ast_to_python(&a, 0), "import os as o");
    let b = AstNode::ImportFrom {
        module: "m".to_string(),
        names: vec![("x".to_string(), None), ("y".to_string(), Some("z".to_string()))],
    };
    assert_eq!(ast_to_python(&b, 0), "from m import x, y as z");
}

#[test]
fn unary_and_return() {
    let n = AstNode::Return(Some(Box::new(AstNode::UnaryOp { op: "not".to_string(), expr: id("x") })));
    assert_eq!(ast_to_python(&n, 1), "    return (not x)");
    assert_eq!(ast_to_python(&AstNode::Return(None), 0), "return");
}

#[test]
fn ranges_and_index_assignment() {
    let r = AstNode::Range { start: Box::new(AstNode::Integer(1)), end: id("n"), step: None };
    assert_eq!(ast_to_python(&r, 0), "1:n");
    let r2 = AstNode::Range { start: Box::new(AstNode::Integer(0)), end: id("n"), step: Some(Box::new(AstNode::Integer(2))) };
    assert_eq!(ast_to_python(&r2, 0), "0:n:2");
    let a = AstNode::IndexAssign { object: id("a"), index: Box::new(AstNode::Integer(0)), value: id("v") };
    assert_eq!(ast_to_python(&a, 1), "    a[0] = v");
    let s = AstNode::String("‘你’".to_string());
    assert_eq!(ast_to_python(&s, 0), "'你'");
}

#[test]
fn each_level_adds_four_spaces_to_every_line() {
    let inner = AstNode::If {
        cond: id("b"),
        body: vec![AstNode::Pass],
        orelse: vec![AstNode::Break],
    };
    let n = AstNode::For {
        var: "i".to_string(),
        iter: id("xs"),
        body: vec![inner, AstNode::Continue],
    };
    let at0 = ast_to_python(&n, 0);
    let at1 = ast_to_python(&n, 1);
    assert_eq!(at0, "for i in xs:\n    if b:\n        pass\n    else:\n        break\n    continue");
    let shifted: Vec<String> = at0.lines().map(|l| format!("    {}", l)).collect();
    assert_eq!(at1, shifted.join("\n"));
}
