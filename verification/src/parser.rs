//! The recursive-descent parser: from a token sequence to a syntax tree.
use vstd::prelude::*;
use vstd::string::StringExecFns;
use crate::ast::{AstNode, Parameter, param_view, import_names_view, SpecAst, SpecParam, node_view, nodes_view, pairs_view, params_view, strings_view, opt_string_view};
use crate::grammar::{
    Toks, at, text, skip, mono, level_op_of, is_class_name, classes_ok, opt_view, opt_box, level_op, level_rank, ident_list,
    expr_at, level_at, level_loop, unary_at, atom_at, postfix_from, index_part, seq_items, dict_items, tuple_items,
    Run, name_list, skip_newlines, skip_to_eol, comma_exprs, import_stmt, from_names, from_stmt, for_target,
    normal_params_of, def_name, stmt_at, block_at, block_loop, elif_else, program_loop, program_of,
};
use crate::text::{chars_of, parse_i64, normalize_decimal, join};
use crate::token::{Token, token_kind, toks_view, lex_kind, LexKind};

verus! {

/// What the executable parsers promise: the node and the stop position that the grammar
/// gives, the stop position inside the sequence, and progress when a node was read.
pub open spec fn yields(t: Toks, p: int, s: (Option<SpecAst>, int), r: (Option<AstNode>, usize)) -> bool {
    &&& yields_from(t, p, s, r)
    &&& (r.0 is Some ==> p < r.1)
}

/// The node and the stop position that the grammar gives, the stop position at `p` or after.
pub open spec fn yields_from(t: Toks, p: int, s: (Option<SpecAst>, int), r: (Option<AstNode>, usize)) -> bool {
    &&& opt_view(r.0) == s.0
    &&& r.1 == s.1
    &&& p <= r.1 <= t.len()
}

/// The class names at hand are those of the token sequence, which fits in a `usize`.
pub open spec fn ctx_ok(t: Toks, classes: Seq<String>) -> bool {
    classes_ok(t, classes) && t.len() < usize::MAX
}

fn tok_at(tokens: &[(Token, String)], p: usize, k: &Token) -> (b: bool)
    ensures
        b == at(toks_view(tokens@), p as int, *k),
{
    p < tokens.len() && token_kind(&tokens[p].0) == token_kind(k)
}

fn skip_tok(tokens: &[(Token, String)], p: usize, k: &Token) -> (q: usize)
    requires
        tokens@.len() < usize::MAX,
    ensures
        q == skip(toks_view(tokens@), p as int, *k),
        p <= q,
        p <= tokens@.len() ==> q <= tokens@.len(),
{
    if tok_at(tokens, p, k) {
        p + 1
    } else {
        p
    }
}

fn is_class(tokens: &[(Token, String)], classes: &Vec<String>, name: &String) -> (b: bool)
    requires
        classes_ok(toks_view(tokens@), classes@),
    ensures
        b == is_class_name(toks_view(tokens@), name@),
{
    let mut j: usize = 0;
    while j < classes.len()
        invariant
            0 <= j <= classes@.len(),
            forall|i: int| 0 <= i < j ==> classes@[i]@ != name@,
            classes_ok(toks_view(tokens@), classes@),
        decreases classes@.len() - j,
    {
        if classes[j] == *name {
            assert(is_class_name(toks_view(tokens@), classes@[j as int]@));
            return true;
        }
        j += 1;
    }
    proof {
        if is_class_name(toks_view(tokens@), name@) {
            let k = choose|k: int| 0 <= k < classes@.len() && classes@[k]@ == name@;
            assert(classes@[k]@ != name@);
        }
    }
    false
}

fn level_op_exec(lv: usize, k: &Token) -> (r: Option<String>)
    ensures
        opt_string_view(r) == level_op_of(lv as int, lex_kind(*k)),
{
    if lv == 0 {
        match k { Token::Or => Some("or".to_owned()), _ => None }
    } else if lv == 1 {
        match k { Token::And => Some("and".to_owned()), _ => None }
    } else if lv == 2 {
        match k {
            Token::DoubleEqual => Some("==".to_owned()),
            Token::NotEqual => Some("!=".to_owned()),
            Token::Less => Some("<".to_owned()),
            Token::LessEqual => Some("<=".to_owned()),
            Token::Greater => Some(">".to_owned()),
            Token::GreaterEqual => Some(">=".to_owned()),
            _ => None,
        }
    } else if lv == 3 {
        match k { Token::BitwiseOr => Some("|".to_owned()), _ => None }
    } else if lv == 4 {
        match k { Token::BitwiseXor => Some("^".to_owned()), _ => None }
    } else if lv == 5 {
        match k { Token::BitwiseAnd => Some("&".to_owned()), _ => None }
    } else if lv == 6 {
        match k {
            Token::LeftShift => Some("<<".to_owned()),
            Token::RightShift => Some(">>".to_owned()),
            _ => None,
        }
    } else if lv == 7 {
        match k {
            Token::Plus => Some("+".to_owned()),
            Token::Minus => Some("-".to_owned()),
            _ => None,
        }
    } else if lv == 8 {
        match k {
            Token::Star => Some("*".to_owned()),
            Token::Slash => Some("/".to_owned()),
            Token::Mod => Some("%".to_owned()),
            Token::FloorDiv => Some("//".to_owned()),
            Token::Pow => Some("**".to_owned()),
            _ => None,
        }
    } else {
        None
    }
}

fn parse_ident_list(tokens: &[(Token, String)], p0: usize) -> (r: (Vec<String>, usize))
    requires
        p0 <= tokens@.len() < usize::MAX,
    ensures
        strings_view(r.0@) == ident_list(toks_view(tokens@), Seq::empty(), p0 as int).0,
        r.1 == ident_list(toks_view(tokens@), Seq::empty(), p0 as int).1,
        p0 <= r.1 <= tokens@.len(),
{
    let mut acc: Vec<String> = Vec::new();
    let mut p = p0;
    assert(strings_view(acc@) =~= Seq::<Seq<char>>::empty());
    loop
        invariant
            p0 <= p <= tokens@.len() < usize::MAX,
            ident_list(toks_view(tokens@), Seq::empty(), p0 as int) == ident_list(toks_view(tokens@), strings_view(acc@), p as int),
        decreases tokens@.len() - p,
    {
        if !tok_at(tokens, p, &Token::Identifier) {
            return (acc, p);
        }
        let ghost before = strings_view(acc@);
        acc.push(tokens[p].1.clone());
        assert(strings_view(acc@) =~= before.push(text(toks_view(tokens@), p as int)));
        if tok_at(tokens, p + 1, &Token::Comma) {
            p = p + 2;
        } else {
            return (acc, p + 1);
        }
    }
}

fn parse_expr(tokens: &[(Token, String)], classes: &Vec<String>, p: usize) -> (r: (Option<AstNode>, usize))
    requires
        ctx_ok(toks_view(tokens@), classes@),
        p <= tokens@.len(),
    ensures
        yields(toks_view(tokens@), p as int, expr_at(toks_view(tokens@), p as int), r),
    decreases tokens@.len() - p, 30int,
{
    parse_level(tokens, classes, p, 0)
}

fn parse_level(tokens: &[(Token, String)], classes: &Vec<String>, p: usize, lv: usize) -> (r: (Option<AstNode>, usize))
    requires
        ctx_ok(toks_view(tokens@), classes@),
        p <= tokens@.len(),
        lv <= 9,
    ensures
        yields(toks_view(tokens@), p as int, level_at(toks_view(tokens@), p as int, lv as int), r),
    decreases tokens@.len() - p, level_rank(lv as int),
{
    if lv >= 9 {
        parse_unary(tokens, classes, p)
    } else {
        let (n, p1) = parse_level(tokens, classes, p, lv + 1);
        match n {
            None => (None, p1),
            Some(n) => parse_level_loop(tokens, classes, n, p1, lv),
        }
    }
}

fn parse_level_loop(tokens: &[(Token, String)], classes: &Vec<String>, n: AstNode, p: usize, lv: usize) -> (r: (
    Option<AstNode>,
    usize,
))
    requires
        ctx_ok(toks_view(tokens@), classes@),
        p <= tokens@.len(),
        lv < 9,
    ensures
        yields_from(toks_view(tokens@), p as int, level_loop(toks_view(tokens@), node_view(n), p as int, lv as int), r),
    decreases tokens@.len() - p, level_rank(lv as int) - 1,
{
    if p < tokens.len() {
        match level_op_exec(lv, &tokens[p].0) {
            Some(op) => {
                let (rt, p2) = parse_level(tokens, classes, p + 1, lv + 1);
                match rt {
                    None => (None, p2),
                    Some(rt) => {
                        let n2 = AstNode::BinaryOp { left: Box::new(n), op, right: Box::new(rt) };
                        parse_level_loop(tokens, classes, n2, p2, lv)
                    },
                }
            },
            None => (Some(n), p),
        }
    } else {
        (Some(n), p)
    }
}

fn parse_unary(tokens: &[(Token, String)], classes: &Vec<String>, p: usize) -> (r: (Option<AstNode>, usize))
    requires
        ctx_ok(toks_view(tokens@), classes@),
        p <= tokens@.len(),
    ensures
        yields(toks_view(tokens@), p as int, unary_at(toks_view(tokens@), p as int), r),
    decreases tokens@.len() - p, 3int,
{
    let is_not = tok_at(tokens, p, &Token::Not);
    if is_not || tok_at(tokens, p, &Token::BitwiseNot) {
        let op = if is_not { "not".to_owned() } else { "~".to_owned() };
        let (e, p1) = parse_unary(tokens, classes, p + 1);
        match e {
            None => (None, p1),
            Some(e) => (Some(AstNode::UnaryOp { op, expr: Box::new(e) }), p1),
        }
    } else {
        parse_atom(tokens, classes, p)
    }
}

/// The parameters `Normal(name)` for the given names.
fn normal_params(names: Vec<String>) -> (r: Vec<Parameter>)
    ensures
        params_view(r@) == strings_view(names@).map_values(|s: Seq<char>| SpecParam::Normal(s)),
{
    let mut r: Vec<Parameter> = Vec::new();
    let mut i: usize = 0;
    while i < names.len()
        invariant
            0 <= i <= names@.len(),
            r@.len() == i,
            forall|j: int| 0 <= j < i ==> param_view(#[trigger] r@[j]) == SpecParam::Normal(names@[j]@),
        decreases names@.len() - i,
    {
        r.push(Parameter::Normal(names[i].clone()));
        i += 1;
    }
    assert(params_view(r@) =~= strings_view(names@).map_values(|s: Seq<char>| SpecParam::Normal(s)));
    r
}

/// The keys of a sequence of pairs, in order.
fn keys_of(pairs: Vec<(AstNode, AstNode)>) -> (r: Vec<AstNode>)
    ensures
        nodes_view(r@) == pairs_view(pairs@).map_values(|kv: (SpecAst, SpecAst)| kv.0),
{
    let ghost all = pairs_view(pairs@).map_values(|kv: (SpecAst, SpecAst)| kv.0);
    let mut pairs = pairs;
    let mut r: Vec<AstNode> = Vec::new();
    while pairs.len() > 0
        invariant
            nodes_view(r@) + pairs_view(pairs@).map_values(|kv: (SpecAst, SpecAst)| kv.0) =~= all,
        decreases pairs@.len(),
    {
        let ghost before = pairs@;
        let (k, _v) = pairs.remove(0);
        let ghost rb = r@;
        r.push(k);
        assert(nodes_view(r@) =~= nodes_view(rb).push(node_view(k)));
        assert(pairs@ =~= before.skip(1));
        assert(pairs_view(before).map_values(|kv: (SpecAst, SpecAst)| kv.0) =~= seq![node_view(k)] + pairs_view(pairs@).map_values(|kv: (SpecAst, SpecAst)| kv.0));
    }
    r
}

fn parse_atom(tokens: &[(Token, String)], classes: &Vec<String>, p: usize) -> (r: (Option<AstNode>, usize))
    requires
        ctx_ok(toks_view(tokens@), classes@),
        p <= tokens@.len(),
    ensures
        yields(toks_view(tokens@), p as int, atom_at(toks_view(tokens@), p as int), r),
    decreases tokens@.len() - p, 2int,
{
    if p >= tokens.len() {
        return (None, p);
    }
    match &tokens[p].0 {
        Token::Lambda => {
            let (names, p1) = parse_ident_list(tokens, p + 1);
            if tok_at(tokens, p1, &Token::Colon) {
                let (b, p2) = parse_expr(tokens, classes, p1 + 1);
                match b {
                    Some(b) => {
                        let params = normal_params(names);
                        (Some(AstNode::Lambda { params, body: Box::new(b) }), p2)
                    },
                    None => (None, p2),
                }
            } else {
                (None, p1)
            }
        },
        Token::BuiltInFunc(name) => {
            let r = parse_postfix(tokens, classes, AstNode::Identifier(name.clone()), p + 1);
            (Some(r.0), r.1)
        },
        Token::Identifier => {
            let r = parse_postfix(tokens, classes, AstNode::Identifier(tokens[p].1.clone()), p + 1);
            (Some(r.0), r.1)
        },
        Token::Integer => {
            let cs = chars_of(tokens[p].1.as_str());
            match parse_i64(&cs) {
                Some(v) => (Some(AstNode::Integer(v)), p + 1),
                None => (None, p + 1),
            }
        },
        Token::Float => {
            let cs = chars_of(tokens[p].1.as_str());
            match normalize_decimal(&cs) {
                Some(f) => (Some(AstNode::Float(f)), p + 1),
                None => (None, p + 1),
            }
        },
        Token::String => (Some(AstNode::String(tokens[p].1.clone())), p + 1),
        Token::True => (Some(AstNode::Bool(true)), p + 1),
        Token::False => (Some(AstNode::Bool(false)), p + 1),
        Token::NoneKw => (Some(AstNode::NoneLiteral), p + 1),
        Token::LBracket => {
            let empty: Vec<AstNode> = Vec::new();
            assert(nodes_view(empty@) =~= Seq::<SpecAst>::empty());
            let (items, p1) = parse_seq_items(tokens, classes, empty, p + 1, Token::RBracket);
            (Some(AstNode::List(items)), skip_tok(tokens, p1, &Token::RBracket))
        },
        Token::LBrace => {
            let empty: Vec<(AstNode, AstNode)> = Vec::new();
            assert(pairs_view(empty@) =~= Seq::<(SpecAst, SpecAst)>::empty());
            let (pairs, is_dict, p1) = parse_dict_items(tokens, classes, empty, false, p + 1);
            let p2 = skip_tok(tokens, p1, &Token::RBrace);
            if is_dict {
                (Some(AstNode::Dict(pairs)), p2)
            } else {
                (Some(AstNode::SetLiteral(keys_of(pairs))), p2)
            }
        },
        Token::LParen => {
            let (e, p1) = parse_expr(tokens, classes, p + 1);
            if tok_at(tokens, p1, &Token::Comma) {
                let mut first: Vec<AstNode> = Vec::new();
                assert(nodes_view(first@) =~= Seq::<SpecAst>::empty());
                match e {
                    Some(x) => {
                        first.push(x);
                        assert(nodes_view(first@) =~= seq![node_view(x)]);
                    },
                    None => {},
                }
                let (items, p2) = parse_tuple_items(tokens, classes, first, p1);
                (Some(AstNode::Tuple(items)), skip_tok(tokens, p2, &Token::RParen))
            } else {
                match e {
                    None => (None, p1),
                    Some(inner) => (Some(AstNode::Paren(Box::new(inner))), skip_tok(tokens, p1, &Token::RParen)),
                }
            }
        },
        _ => (None, p),
    }
}

/// What `parse_postfix` promises: it always yields the node that the grammar gives.
pub open spec fn postfix_ok(t: Toks, p: int, s: (Option<SpecAst>, int), r: (AstNode, usize)) -> bool {
    &&& s.0 == Some(node_view(r.0))
    &&& r.1 == s.1
    &&& p <= r.1 <= t.len()
}

fn parse_postfix(tokens: &[(Token, String)], classes: &Vec<String>, n: AstNode, p: usize) -> (r: (AstNode, usize))
    requires
        ctx_ok(toks_view(tokens@), classes@),
        p <= tokens@.len(),
    ensures
        postfix_ok(toks_view(tokens@), p as int, postfix_from(toks_view(tokens@), node_view(n), p as int), r),
    decreases tokens@.len() - p, 1int,
{
    let ghost t = toks_view(tokens@);
    let ghost nv = node_view(n);
    if tok_at(tokens, p, &Token::Dot) {
        if tok_at(tokens, p + 1, &Token::Identifier) {
            let n2 = AstNode::Attribute { value: Box::new(n), attr: tokens[p + 1].1.clone() };
            assert(node_view(n2) == SpecAst::Attribute { value: Box::new(nv), attr: text(t, p + 1) });
            assert(postfix_from(t, nv, p as int) == postfix_from(t, node_view(n2), p + 2));
            parse_postfix(tokens, classes, n2, p + 2)
        } else {
            (n, p + 1)
        }
    } else if tok_at(tokens, p, &Token::LBracket) {
        let (n2, q) = parse_index_part(tokens, classes, n, p);
        assert(postfix_from(t, nv, p as int) == postfix_from(t, node_view(n2), q as int));
        parse_postfix(tokens, classes, n2, q)
    } else if tok_at(tokens, p, &Token::LParen) {
        let empty: Vec<AstNode> = Vec::new();
        assert(nodes_view(empty@) =~= Seq::<SpecAst>::empty());
        let (args, q1) = parse_seq_items(tokens, classes, empty, p + 1, Token::RParen);
        let q2 = skip_tok(tokens, q1, &Token::RParen);
        let n2 = match n {
            AstNode::Identifier(name) => {
                if is_class(tokens, classes, &name) {
                    AstNode::Instance { class: name, args }
                } else {
                    AstNode::Call { func: Box::new(AstNode::Identifier(name)), args }
                }
            },
            other => {
                proof {
                    crate::ast::lemma_view_variant(other);
                }
                AstNode::Call { func: Box::new(other), args }
            },
        };
        assert(postfix_from(t, nv, p as int) == postfix_from(t, node_view(n2), q2 as int));
        parse_postfix(tokens, classes, n2, q2)
    } else {
        (n, p)
    }
}

fn parse_index_part(tokens: &[(Token, String)], classes: &Vec<String>, n: AstNode, p: usize) -> (r: (AstNode, usize))
    requires
        ctx_ok(toks_view(tokens@), classes@),
        p < tokens@.len(),
        at(toks_view(tokens@), p as int, Token::LBracket),
    ensures
        (node_view(r.0), r.1 as int) == index_part(toks_view(tokens@), node_view(n), p as int),
        p < r.1 <= tokens@.len(),
    decreases tokens@.len() - p, 0int,
{
    let q0 = p + 1;
    let (start, q1) = if tok_at(tokens, q0, &Token::Colon) {
        (None, q0)
    } else {
        parse_expr(tokens, classes, q0)
    };
    if tok_at(tokens, q1, &Token::Colon) {
        let r0 = q1 + 1;
        let (end, r1) = if !tok_at(tokens, r0, &Token::Colon) && !tok_at(tokens, r0, &Token::RBracket) {
            parse_expr(tokens, classes, r0)
        } else {
            (None, r0)
        };
        let (step, r2) = if tok_at(tokens, r1, &Token::Colon) {
            if !tok_at(tokens, r1 + 1, &Token::RBracket) {
                parse_expr(tokens, classes, r1 + 1)
            } else {
                (None, r1 + 1)
            }
        } else {
            (None, r1)
        };
        let node = AstNode::Slice {
            value: Box::new(n),
            start: match start { Some(s) => Some(Box::new(s)), None => None },
            end: match end { Some(s) => Some(Box::new(s)), None => None },
            step: match step { Some(s) => Some(Box::new(s)), None => None },
        };
        (node, skip_tok(tokens, r2, &Token::RBracket))
    } else {
        let n2 = match start {
            Some(s) => AstNode::Index { value: Box::new(n), index: Box::new(s) },
            None => n,
        };
        (n2, skip_tok(tokens, q1, &Token::RBracket))
    }
}

fn parse_seq_items(tokens: &[(Token, String)], classes: &Vec<String>, acc: Vec<AstNode>, p: usize, close: Token) -> (r: (
    Vec<AstNode>,
    usize,
))
    requires
        ctx_ok(toks_view(tokens@), classes@),
        p <= tokens@.len(),
        !(close is BuiltInFunc),
    ensures
        (nodes_view(r.0@), r.1 as int) == seq_items(toks_view(tokens@), nodes_view(acc@), p as int, close),
        p <= r.1 <= tokens@.len(),
    decreases tokens@.len() - p, 31int,
{
    if tok_at(tokens, p, &close) {
        (acc, p)
    } else {
        let (e, p1) = parse_expr(tokens, classes, p);
        match e {
            None => (acc, p1),
            Some(x) => {
                let ghost before = acc@;
                let mut acc = acc;
                acc.push(x);
                assert(nodes_view(acc@) =~= nodes_view(before).push(node_view(x)));
                let p2 = skip_tok(tokens, p1, &Token::Comma);
                parse_seq_items(tokens, classes, acc, p2, close)
            },
        }
    }
}

fn parse_dict_items(
    tokens: &[(Token, String)],
    classes: &Vec<String>,
    pairs: Vec<(AstNode, AstNode)>,
    is_dict: bool,
    p: usize,
) -> (r: (Vec<(AstNode, AstNode)>, bool, usize))
    requires
        ctx_ok(toks_view(tokens@), classes@),
        p <= tokens@.len(),
    ensures
        (pairs_view(r.0@), r.1, r.2 as int) == dict_items(toks_view(tokens@), pairs_view(pairs@), is_dict, p as int),
        p <= r.2 <= tokens@.len(),
    decreases tokens@.len() - p, 31int,
{
    if tok_at(tokens, p, &Token::RBrace) {
        return (pairs, is_dict, p);
    }
    let (k, p1) = parse_expr(tokens, classes, p);
    match k {
        None => (pairs, is_dict, p1),
        Some(k) => {
            if tok_at(tokens, p1, &Token::Colon) {
                let (v, p2) = parse_expr(tokens, classes, p1 + 1);
                match v {
                    None => (pairs, true, p2),
                    Some(v) => {
                        let ghost before = pairs@;
                        let mut pairs = pairs;
                        pairs.push((k, v));
                        assert(pairs_view(pairs@) =~= pairs_view(before).push((node_view(k), node_view(v))));
                        let p3 = skip_tok(tokens, p2, &Token::Comma);
                        parse_dict_items(tokens, classes, pairs, true, p3)
                    },
                }
            } else {
                let ghost before = pairs@;
                let mut pairs = pairs;
                pairs.push((k, AstNode::NoneLiteral));
                assert(pairs_view(pairs@) =~= pairs_view(before).push((node_view(k), SpecAst::NoneLiteral)));
                let p3 = skip_tok(tokens, p1, &Token::Comma);
                parse_dict_items(tokens, classes, pairs, is_dict, p3)
            }
        },
    }
}

fn parse_tuple_items(tokens: &[(Token, String)], classes: &Vec<String>, acc: Vec<AstNode>, p: usize) -> (r: (
    Vec<AstNode>,
    usize,
))
    requires
        ctx_ok(toks_view(tokens@), classes@),
        p <= tokens@.len(),
    ensures
        (nodes_view(r.0@), r.1 as int) == tuple_items(toks_view(tokens@), nodes_view(acc@), p as int),
        p <= r.1 <= tokens@.len(),
    decreases tokens@.len() - p, 31int,
{
    if tok_at(tokens, p, &Token::RParen) {
        (acc, p)
    } else {
        let p1 = skip_tok(tokens, p, &Token::Comma);
        let (e, p2) = parse_expr(tokens, classes, p1);
        match e {
            None => (acc, p2),
            Some(x) => {
                let ghost before = acc@;
                let mut acc = acc;
                acc.push(x);
                assert(nodes_view(acc@) =~= nodes_view(before).push(node_view(x)));
                parse_tuple_items(tokens, classes, acc, p2)
            },
        }
    }
}


/// What the executable statement parsers promise: `None` exactly when the grammar says
/// the parse runs forever, else its result and stop position.
pub open spec fn run_ok(t: Toks, p: int, s: Run<Option<SpecAst>>, r: Option<(Option<AstNode>, usize)>) -> bool {
    match r {
        None => s is Hangs,
        Some((n, q)) => {
            &&& s == Run::Done(opt_view(n), q as int)
            &&& p <= q <= t.len() + 1
            &&& (n is None ==> q <= t.len())
        },
    }
}

/// What the block parsers promise: the statements and the stop position that the grammar gives.
pub open spec fn block_ok(t: Toks, p: int, s: Run<Seq<SpecAst>>, r: Option<(Vec<AstNode>, usize)>) -> bool {
    match r {
        None => s is Hangs,
        Some((v, q)) => {
            &&& s == Run::Done(nodes_view(v@), q as int)
            &&& p <= q <= t.len() + 1
        },
    }
}

fn parse_name_list(tokens: &[(Token, String)], p0: usize) -> (r: (Vec<String>, usize))
    requires
        p0 <= tokens@.len() < usize::MAX,
    ensures
        strings_view(r.0@) == name_list(toks_view(tokens@), Seq::empty(), p0 as int).0,
        r.1 == name_list(toks_view(tokens@), Seq::empty(), p0 as int).1,
        p0 <= r.1 <= tokens@.len(),
{
    let mut acc: Vec<String> = Vec::new();
    let mut p = p0;
    assert(strings_view(acc@) =~= Seq::<Seq<char>>::empty());
    loop
        invariant
            p0 <= p <= tokens@.len() < usize::MAX,
            name_list(toks_view(tokens@), Seq::empty(), p0 as int) == name_list(toks_view(tokens@), strings_view(acc@), p as int),
        decreases tokens@.len() - p,
    {
        if p >= tokens.len() {
            return (acc, p);
        }
        let ghost before = strings_view(acc@);
        match &tokens[p].0 {
            Token::RParen => {
                return (acc, p);
            },
            Token::Identifier => {
                acc.push(tokens[p].1.clone());
            },
            Token::BuiltInFunc(f) => {
                acc.push(f.clone());
            },
            _ => {
                return (acc, p);
            },
        }
        assert(strings_view(acc@) =~= before.push(acc@.last()@));
        p = skip_tok(tokens, p + 1, &Token::Comma);
    }
}

fn skip_newlines_exec(tokens: &[(Token, String)], p0: usize) -> (q: usize)
    requires
        tokens@.len() < usize::MAX,
    ensures
        q == skip_newlines(toks_view(tokens@), p0 as int),
        p0 <= q,
        p0 <= tokens@.len() ==> q <= tokens@.len(),
{
    let mut p = p0;
    while tok_at(tokens, p, &Token::Newline)
        invariant
            p0 <= p,
            p0 <= tokens@.len() ==> p <= tokens@.len(),
            tokens@.len() < usize::MAX,
            skip_newlines(toks_view(tokens@), p0 as int) == skip_newlines(toks_view(tokens@), p as int),
        decreases tokens@.len() - p,
    {
        p = p + 1;
    }
    p
}

fn skip_to_eol_exec(tokens: &[(Token, String)], p0: usize) -> (q: usize)
    requires
        tokens@.len() < usize::MAX,
    ensures
        q == skip_to_eol(toks_view(tokens@), p0 as int),
        p0 <= q,
        p0 <= tokens@.len() ==> q <= tokens@.len(),
{
    let mut p = p0;
    while p < tokens.len() && !tok_at(tokens, p, &Token::Newline) && !tok_at(tokens, p, &Token::Dedent)
        invariant
            p0 <= p,
            p0 <= tokens@.len() ==> p <= tokens@.len(),
            tokens@.len() < usize::MAX,
            skip_to_eol(toks_view(tokens@), p0 as int) == skip_to_eol(toks_view(tokens@), p as int),
        decreases tokens@.len() - p,
    {
        p = p + 1;
    }
    p
}

fn parse_comma_exprs(tokens: &[(Token, String)], classes: &Vec<String>, acc: Vec<AstNode>, p: usize) -> (r: (
    Vec<AstNode>,
    usize,
))
    requires
        ctx_ok(toks_view(tokens@), classes@),
        p <= tokens@.len(),
    ensures
        (nodes_view(r.0@), r.1 as int) == comma_exprs(toks_view(tokens@), nodes_view(acc@), p as int),
        p <= r.1 <= tokens@.len(),
    decreases tokens@.len() - p,
{
    if tok_at(tokens, p, &Token::Comma) {
        let (v, p1) = parse_expr(tokens, classes, p + 1);
        match v {
            None => (acc, p1),
            Some(v) => {
                let ghost before = acc@;
                let mut acc = acc;
                acc.push(v);
                assert(nodes_view(acc@) =~= nodes_view(before).push(node_view(v)));
                parse_comma_exprs(tokens, classes, acc, p1)
            },
        }
    } else {
        (acc, p)
    }
}

fn parse_import(tokens: &[(Token, String)], p: usize) -> (r: (Option<AstNode>, usize))
    requires
        p < tokens@.len() < usize::MAX,
    ensures
        (opt_view(r.0), r.1 as int) == import_stmt(toks_view(tokens@), p as int),
        p <= r.1 <= tokens@.len(),
{
    let q = p + 1;
    if !tok_at(tokens, q, &Token::Identifier) {
        (None, q)
    } else if tok_at(tokens, q + 1, &Token::As) {
        if tok_at(tokens, q + 2, &Token::Identifier) {
            (Some(AstNode::Import { module: tokens[q].1.clone(), alias: Some(tokens[q + 2].1.clone()) }), q + 3)
        } else {
            (None, q + 2)
        }
    } else {
        (Some(AstNode::Import { module: tokens[q].1.clone(), alias: None }), q + 1)
    }
}

fn parse_from(tokens: &[(Token, String)], p: usize) -> (r: (Option<AstNode>, usize))
    requires
        p < tokens@.len() < usize::MAX,
    ensures
        (opt_view(r.0), r.1 as int) == from_stmt(toks_view(tokens@), p as int),
        p <= r.1 <= tokens@.len(),
{
    let q = p + 1;
    if !tok_at(tokens, q, &Token::Identifier) {
        return (None, q);
    }
    if !tok_at(tokens, q + 1, &Token::Import) {
        return (None, q + 1);
    }
    let mut names: Vec<(String, Option<String>)> = Vec::new();
    let mut r = q + 2;
    assert(import_names_view(names@) =~= Seq::<(Seq<char>, Option<Seq<char>>)>::empty());
    loop
        invariant
            q + 2 <= r <= tokens@.len() < usize::MAX,
            q == p + 1,
            at(toks_view(tokens@), q as int, Token::Identifier),
            at(toks_view(tokens@), q + 1, Token::Import),
            from_names(toks_view(tokens@), Seq::empty(), q + 2) == from_names(toks_view(tokens@), import_names_view(names@), r as int),
        decreases tokens@.len() - r,
    {
        let ghost before = import_names_view(names@);
        if !tok_at(tokens, r, &Token::Identifier) {
            return (Some(AstNode::ImportFrom { module: tokens[q].1.clone(), names }), r);
        }
        let name = tokens[r].1.clone();
        if tok_at(tokens, r + 1, &Token::As) {
            if tok_at(tokens, r + 2, &Token::Identifier) {
                names.push((name, Some(tokens[r + 2].1.clone())));
                assert(import_names_view(names@) =~= before.push((text(toks_view(tokens@), r as int), Some(text(toks_view(tokens@), r + 2)))));
                if tok_at(tokens, r + 3, &Token::Comma) {
                    r = r + 4;
                } else {
                    return (Some(AstNode::ImportFrom { module: tokens[q].1.clone(), names }), r + 3);
                }
            } else {
                return (None, r + 2);
            }
        } else {
            names.push((name, None));
            assert(import_names_view(names@) =~= before.push((text(toks_view(tokens@), r as int), None)));
            if tok_at(tokens, r + 1, &Token::Comma) {
                r = r + 2;
            } else {
                return (Some(AstNode::ImportFrom { module: tokens[q].1.clone(), names }), r + 1);
            }
        }
    }
}

/// `s[0]`, or the texts joined by `, `.
fn for_target_exec(vars: &Vec<String>) -> (s: String)
    ensures
        s@ == for_target(strings_view(vars@)),
{
    if vars.len() == 1 {
        return vars[0].clone();
    }
    let mut s = String::new();
    let mut i: usize = 0;
    while i < vars.len()
        invariant
            0 <= i <= vars@.len(),
            vars@.len() != 1,
            s@ == join(strings_view(vars@.take(i as int)), ", "@),
        decreases vars@.len() - i,
    {
        let ghost prev = strings_view(vars@.take(i as int));
        assert(strings_view(vars@.take(i + 1)) =~= prev.push(vars@[i as int]@));
        assert(strings_view(vars@.take(i + 1)).drop_last() =~= prev);
        if i > 0 {
            s.append(", ");
        }
        s.append(vars[i].as_str());
        i += 1;
    }
    assert(vars@.take(vars@.len() as int) =~= vars@);
    s
}


fn parse_stmt(tokens: &[(Token, String)], classes: &Vec<String>, p: usize) -> (r: Option<(Option<AstNode>, usize)>)
    requires
        ctx_ok(toks_view(tokens@), classes@),
        p <= tokens@.len(),
    ensures
        run_ok(toks_view(tokens@), p as int, stmt_at(toks_view(tokens@), p as int), r),
    decreases tokens@.len() + 1 - p, 1int,
{
    if tok_at(tokens, p, &Token::Import) {
        Some(parse_import(tokens, p))
    } else if tok_at(tokens, p, &Token::From) {
        Some(parse_from(tokens, p))
    } else if tok_at(tokens, p, &Token::Class) {
        parse_class(tokens, classes, p)
    } else if tok_at(tokens, p, &Token::Def) {
        parse_def(tokens, classes, p)
    } else if tok_at(tokens, p, &Token::If) {
        parse_if(tokens, classes, p)
    } else if tok_at(tokens, p, &Token::For) {
        parse_for(tokens, classes, p)
    } else if tok_at(tokens, p, &Token::Return) {
        if tok_at(tokens, p + 1, &Token::Newline) {
            Some((Some(AstNode::Return(None)), p + 1))
        } else {
            let (e, q) = parse_expr(tokens, classes, p + 1);
            match e {
                None => Some((None, q)),
                Some(e) => Some((Some(AstNode::Return(Some(Box::new(e)))), q)),
            }
        }
    } else if tok_at(tokens, p, &Token::Break) {
        Some((Some(AstNode::Break), p + 1))
    } else if tok_at(tokens, p, &Token::Continue) {
        Some((Some(AstNode::Continue), p + 1))
    } else if tok_at(tokens, p, &Token::Pass) {
        Some((Some(AstNode::Pass), p + 1))
    } else {
        Some(parse_simple(tokens, classes, p))
    }
}

fn parse_class(tokens: &[(Token, String)], classes: &Vec<String>, p: usize) -> (r: Option<(Option<AstNode>, usize)>)
    requires
        ctx_ok(toks_view(tokens@), classes@),
        p < tokens@.len(),
        at(toks_view(tokens@), p as int, Token::Class),
    ensures
        run_ok(toks_view(tokens@), p as int, stmt_at(toks_view(tokens@), p as int), r),
    decreases tokens@.len() + 1 - p, 0int,
{
    if !tok_at(tokens, p + 1, &Token::Identifier) {
        return Some((None, p + 1));
    }
    let name = tokens[p + 1].1.clone();
    let q = p + 2;
    let (bases, q1) = if tok_at(tokens, q, &Token::LParen) {
        let (b, r) = parse_name_list(tokens, q + 1);
        (b, skip_tok(tokens, r, &Token::RParen))
    } else {
        let b: Vec<String> = Vec::new();
        assert(strings_view(b@) =~= Seq::<Seq<char>>::empty());
        (b, q)
    };
    let q3 = skip_newlines_exec(tokens, skip_tok(tokens, q1, &Token::Colon));
    match parse_block(tokens, classes, q3) {
        None => None,
        Some((body, q4)) => Some((Some(AstNode::Class { name, bases, body }), q4)),
    }
}

fn parse_def(tokens: &[(Token, String)], classes: &Vec<String>, p: usize) -> (r: Option<(Option<AstNode>, usize)>)
    requires
        ctx_ok(toks_view(tokens@), classes@),
        p < tokens@.len(),
        at(toks_view(tokens@), p as int, Token::Def),
    ensures
        run_ok(toks_view(tokens@), p as int, stmt_at(toks_view(tokens@), p as int), r),
    decreases tokens@.len() + 1 - p, 0int,
{
    if p + 1 >= tokens.len() {
        return Some((None, p + 1));
    }
    let name = match &tokens[p + 1].0 {
        Token::Identifier => tokens[p + 1].1.clone(),
        Token::BuiltInFunc(f) => f.clone(),
        _ => {
            return Some((None, p + 1));
        },
    };
    let q = p + 2;
    if !tok_at(tokens, q, &Token::LParen) {
        return Some((None, q));
    }
    let (ps, r) = parse_name_list(tokens, q + 1);
    let q3 = skip_newlines_exec(tokens, skip_tok(tokens, skip_tok(tokens, r, &Token::RParen), &Token::Colon));
    match parse_block(tokens, classes, q3) {
        None => None,
        Some((body, q4)) => {
            let params = normal_params(ps);
            Some((Some(AstNode::Def { name, params, body }), q4))
        },
    }
}

fn parse_if(tokens: &[(Token, String)], classes: &Vec<String>, p: usize) -> (r: Option<(Option<AstNode>, usize)>)
    requires
        ctx_ok(toks_view(tokens@), classes@),
        p < tokens@.len(),
        at(toks_view(tokens@), p as int, Token::If),
    ensures
        run_ok(toks_view(tokens@), p as int, stmt_at(toks_view(tokens@), p as int), r),
    decreases tokens@.len() + 1 - p, 0int,
{
    let (c, q) = parse_expr(tokens, classes, p + 1);
    match c {
        None => Some((None, q)),
        Some(c) => {
            let q2 = skip_newlines_exec(tokens, skip_tok(tokens, q, &Token::Colon));
            match parse_block(tokens, classes, q2) {
                None => None,
                Some((body, q3)) => match parse_elif_else(tokens, classes, q3) {
                    None => None,
                    Some((orelse, q4)) => Some((Some(AstNode::If { cond: Box::new(c), body, orelse }), q4)),
                },
            }
        },
    }
}

fn parse_for(tokens: &[(Token, String)], classes: &Vec<String>, p: usize) -> (r: Option<(Option<AstNode>, usize)>)
    requires
        ctx_ok(toks_view(tokens@), classes@),
        p < tokens@.len(),
        at(toks_view(tokens@), p as int, Token::For),
    ensures
        run_ok(toks_view(tokens@), p as int, stmt_at(toks_view(tokens@), p as int), r),
    decreases tokens@.len() + 1 - p, 0int,
{
    let (vars, q) = parse_ident_list(tokens, p + 1);
    if !tok_at(tokens, q, &Token::In) {
        return Some((None, q));
    }
    let (it, q1) = parse_expr(tokens, classes, q + 1);
    match it {
        None => Some((None, q1)),
        Some(it) => {
            let q2 = skip_newlines_exec(tokens, skip_tok(tokens, q1, &Token::Colon));
            match parse_block(tokens, classes, q2) {
                None => None,
                Some((body, q3)) => {
                    let var = for_target_exec(&vars);
                    Some((Some(AstNode::For { var, iter: Box::new(it), body }), q3))
                },
            }
        },
    }
}

/// Assignments, multiple assignments and expression statements.
fn parse_simple(tokens: &[(Token, String)], classes: &Vec<String>, p: usize) -> (r: (Option<AstNode>, usize))
    requires
        ctx_ok(toks_view(tokens@), classes@),
        p <= tokens@.len(),
        !at(toks_view(tokens@), p as int, Token::Import),
        !at(toks_view(tokens@), p as int, Token::From),
        !at(toks_view(tokens@), p as int, Token::Class),
        !at(toks_view(tokens@), p as int, Token::Def),
        !at(toks_view(tokens@), p as int, Token::If),
        !at(toks_view(tokens@), p as int, Token::For),
        !at(toks_view(tokens@), p as int, Token::Return),
        !at(toks_view(tokens@), p as int, Token::Break),
        !at(toks_view(tokens@), p as int, Token::Continue),
        !at(toks_view(tokens@), p as int, Token::Pass),
    ensures
        run_ok(toks_view(tokens@), p as int, stmt_at(toks_view(tokens@), p as int), Some(r)),
{
    let (vars, q) = parse_ident_list(tokens, p);
    if vars.len() > 1 && tok_at(tokens, q, &Token::Equal) {
        let (first, q1) = parse_expr(tokens, classes, q + 1);
        match first {
            None => {
                let values: Vec<AstNode> = Vec::new();
                assert(nodes_view(values@) =~= Seq::<SpecAst>::empty());
                (Some(AstNode::MultiAssign { names: vars, values }), q1)
            },
            Some(f) => {
                let mut first_vals: Vec<AstNode> = Vec::new();
                first_vals.push(f);
                assert(nodes_view(first_vals@) =~= seq![node_view(f)]);
                let (values, q2) = parse_comma_exprs(tokens, classes, first_vals, q1);
                (Some(AstNode::MultiAssign { names: vars, values }), q2)
            },
        }
    } else {
        let (e, q1) = parse_expr(tokens, classes, p);
        match e {
            None => (None, q1),
            Some(e) => {
                if tok_at(tokens, q1, &Token::Equal) {
                    let (v, q2) = parse_expr(tokens, classes, q1 + 1);
                    match v {
                        None => (None, q2),
                        Some(v) => match e {
                            AstNode::Identifier(name) => (Some(AstNode::Assign { name, value: Box::new(v) }), q2),
                            AstNode::Attribute { value, attr } => (
                                Some(AstNode::AttributeAssign { object: value, attr, value: Box::new(v) }),
                                q2,
                            ),
                            AstNode::Index { value, index } => (
                                Some(AstNode::IndexAssign { object: value, index, value: Box::new(v) }),
                                q2,
                            ),
                            other => {
                                proof {
                                    crate::ast::lemma_view_variant(other);
                                    crate::ast::lemma_view_attribute(other);
                                }
                                (Some(other), p)
                            },
                        },
                    }
                } else {
                    (Some(e), q1)
                }
            },
        }
    }
}

fn parse_block(tokens: &[(Token, String)], classes: &Vec<String>, p: usize) -> (r: Option<(Vec<AstNode>, usize)>)
    requires
        ctx_ok(toks_view(tokens@), classes@),
        p <= tokens@.len(),
    ensures
        block_ok(toks_view(tokens@), p as int, block_at(toks_view(tokens@), p as int), r),
    decreases tokens@.len() + 1 - p, 3int,
{
    if tok_at(tokens, p, &Token::Indent) {
        match parse_block_loop(tokens, classes, p + 1) {
            None => None,
            Some((body, q)) => Some((body, skip_tok(tokens, q, &Token::Dedent))),
        }
    } else {
        match parse_stmt(tokens, classes, p) {
            None => None,
            Some((s, q)) => {
                let mut body: Vec<AstNode> = Vec::new();
                assert(nodes_view(body@) =~= Seq::<SpecAst>::empty());
                match s {
                    Some(x) => {
                        body.push(x);
                        assert(nodes_view(body@) =~= seq![node_view(x)]);
                    },
                    None => {},
                }
                let q1 = skip_to_eol_exec(tokens, q);
                Some((body, skip_tok(tokens, q1, &Token::Newline)))
            },
        }
    }
}

fn parse_block_loop(tokens: &[(Token, String)], classes: &Vec<String>, p0: usize) -> (r: Option<(Vec<AstNode>, usize)>)
    requires
        ctx_ok(toks_view(tokens@), classes@),
        p0 <= tokens@.len(),
    ensures
        block_ok(toks_view(tokens@), p0 as int, block_loop(toks_view(tokens@), Seq::empty(), p0 as int), r),
    decreases tokens@.len() + 1 - p0, 2int,
{
    let mut acc: Vec<AstNode> = Vec::new();
    let mut p = p0;
    assert(nodes_view(acc@) =~= Seq::<SpecAst>::empty());
    loop
        invariant
            ctx_ok(toks_view(tokens@), classes@),
            p0 <= p <= tokens@.len() + 1,
            block_loop(toks_view(tokens@), Seq::empty(), p0 as int) == block_loop(toks_view(tokens@), nodes_view(acc@), p as int),
        decreases tokens@.len() + 1 - p,
    {
        if !(p < tokens.len() && !tok_at(tokens, p, &Token::Dedent)) {
            return Some((acc, p));
        }
        match parse_stmt(tokens, classes, p) {
            None => {
                return None;
            },
            Some((Some(s), q)) => {
                let q1 = skip_tok(tokens, q, &Token::Newline);
                if q1 == p {
                    return None;
                }
                let ghost before = acc@;
                acc.push(s);
                assert(nodes_view(acc@) =~= nodes_view(before).push(node_view(s)));
                p = q1;
            },
            Some((None, q)) => {
                p = skip_tok(tokens, q + 1, &Token::Newline);
            },
        }
    }
}

fn parse_elif_else(tokens: &[(Token, String)], classes: &Vec<String>, p: usize) -> (r: Option<(Vec<AstNode>, usize)>)
    requires
        ctx_ok(toks_view(tokens@), classes@),
        p <= tokens@.len() + 1,
    ensures
        block_ok(toks_view(tokens@), p as int, elif_else(toks_view(tokens@), p as int), r),
    decreases tokens@.len() + 1 - p, 2int,
{
    if tok_at(tokens, p, &Token::Elif) {
        let (c, q) = parse_expr(tokens, classes, p + 1);
        match c {
            None => {
                let v: Vec<AstNode> = Vec::new();
                assert(nodes_view(v@) =~= Seq::<SpecAst>::empty());
                Some((v, q))
            },
            Some(c) => {
                let q2 = skip_newlines_exec(tokens, skip_tok(tokens, q, &Token::Colon));
                match parse_block(tokens, classes, q2) {
                    None => None,
                    Some((body, q3)) => match parse_elif_else(tokens, classes, q3) {
                        None => None,
                        Some((orelse, q4)) => {
                            let mut v: Vec<AstNode> = Vec::new();
                            let node = AstNode::If { cond: Box::new(c), body, orelse };
                            v.push(node);
                            assert(nodes_view(v@) =~= seq![node_view(node)]);
                            Some((v, q4))
                        },
                    },
                }
            },
        }
    } else if tok_at(tokens, p, &Token::Else) {
        let q = skip_newlines_exec(tokens, skip_tok(tokens, p + 1, &Token::Colon));
        parse_block(tokens, classes, q)
    } else {
        let v: Vec<AstNode> = Vec::new();
        assert(nodes_view(v@) =~= Seq::<SpecAst>::empty());
        Some((v, p))
    }
}


/// Whether a class name follows a `class` keyword at position `k`.
pub open spec fn class_at(t: Toks, k: int) -> bool {
    0 <= k && k + 1 < t.len() && at(t, k, Token::Class) && at(t, k + 1, Token::Identifier)
}

/// The class name declared at position `k` is in `v`.
pub open spec fn listed(t: Toks, v: Seq<String>, k: int) -> bool {
    exists|j: int| 0 <= j < v.len() && #[trigger] v[j]@ == text(t, k + 1)
}

/// The names that follow a `class` keyword, in order of appearance.
fn collect_classes(tokens: &[(Token, String)]) -> (v: Vec<String>)
    requires
        tokens@.len() < usize::MAX,
    ensures
        classes_ok(toks_view(tokens@), v@),
{
    let mut v: Vec<String> = Vec::new();
    let mut i: usize = 0;
    while i < tokens.len()
        invariant
            0 <= i <= tokens@.len() < usize::MAX,
            forall|j: int| 0 <= j < v@.len() ==> is_class_name(toks_view(tokens@), #[trigger] v@[j]@),
            forall|k: int| 0 <= k < i && #[trigger] class_at(toks_view(tokens@), k) ==> listed(toks_view(tokens@), v@, k),
        decreases tokens@.len() - i,
    {
        if tok_at(tokens, i, &Token::Class) && tok_at(tokens, i + 1, &Token::Identifier) {
            let ghost old_v = v@;
            v.push(tokens[i + 1].1.clone());
            assert(is_class_name(toks_view(tokens@), text(toks_view(tokens@), i + 1)));
            assert(v@[old_v.len() as int]@ == text(toks_view(tokens@), i + 1));
            assert forall|k: int| 0 <= k < i + 1 && #[trigger] class_at(toks_view(tokens@), k) implies listed(toks_view(tokens@), v@, k) by {
                if k < i {
                    assert(listed(toks_view(tokens@), old_v, k));
                    let j0 = choose|j: int| 0 <= j < old_v.len() && #[trigger] old_v[j]@ == text(toks_view(tokens@), k + 1);
                    assert(v@[j0] == old_v[j0]);
                } else {
                    assert(v@[old_v.len() as int]@ == text(toks_view(tokens@), k + 1));
                }
            }
        }
        i += 1;
    }
    assert forall|s: Seq<char>| #[trigger] is_class_name(toks_view(tokens@), s) implies exists|j: int| 0 <= j < v@.len() && v@[j]@ == s by {
        let k = choose|k: int| 0 <= k && k + 1 < tokens@.len() && at(toks_view(tokens@), k, Token::Class) && at(toks_view(tokens@), k + 1, Token::Identifier)
            && #[trigger] text(toks_view(tokens@), k + 1) == s;
        assert(class_at(toks_view(tokens@), k));
        assert(listed(toks_view(tokens@), v@, k));
    }
    v
}

/// Parses a token sequence into a `Program` node; `None` when the parse would run forever
/// (a statement that yields a node without moving the cursor, such as an assignment to a
/// call, `f(x) = 1`).
pub fn try_parse(tokens: &[(Token, String)]) -> (r: Option<AstNode>)
    requires
        tokens@.len() < usize::MAX,
    ensures
        opt_view(r) == program_of(toks_view(tokens@)),
{
    let classes = collect_classes(tokens);
    let mut acc: Vec<AstNode> = Vec::new();
    let mut p: usize = 0;
    assert(nodes_view(acc@) =~= Seq::<SpecAst>::empty());
    loop
        invariant
            ctx_ok(toks_view(tokens@), classes@),
            p <= tokens@.len() + 1,
            program_loop(toks_view(tokens@), Seq::empty(), 0) == program_loop(toks_view(tokens@), nodes_view(acc@), p as int),
        decreases tokens@.len() + 1 - p,
    {
        if p >= tokens.len() {
            return Some(AstNode::Program(acc));
        }
        match parse_stmt(tokens, &classes, p) {
            None => {
                return None;
            },
            Some((Some(s), q)) => {
                if q == p {
                    return None;
                }
                let ghost before = acc@;
                acc.push(s);
                assert(nodes_view(acc@) =~= nodes_view(before).push(node_view(s)));
                p = q;
            },
            Some((None, q)) => {
                p = q + 1;
            },
        }
    }
}

/// Parses a token sequence into a `Program` node, for sequences on which the parse ends.
pub fn parse(tokens: &[(Token, String)]) -> (r: AstNode)
    requires
        tokens@.len() < usize::MAX,
        program_of(toks_view(tokens@)) is Some,
    ensures
        Some(node_view(r)) == program_of(toks_view(tokens@)),
{
    match try_parse(tokens) {
        Some(n) => n,
        None => {
            proof {
                assert(false);
            }
            AstNode::Pass
        },
    }
}

} // verus!
