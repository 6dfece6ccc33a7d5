//! The grammar that the parser follows, as spec functions over the token sequence:
//! each yields the node it reads, if any, and the position where it stopped.
use vstd::prelude::*;
use crate::ast::{AstNode, SpecAst, SpecParam, node_view, nodes_view};
use crate::text::{decimal_text, i64_of_text, join};
use crate::token::{Token, kind, LexKind, kind_of, TokView};

verus! {

/// The token sequence that the parser reads.
pub type Toks = Seq<TokView>;

/// Whether position `p` holds a token of the kind of `k`.
pub open spec fn at(t: Toks, p: int, k: Token) -> bool {
    0 <= p < t.len() && kind_of(t[p].0) == kind(k)
}

/// The source text of the token at `p`.
pub open spec fn text(t: Toks, p: int) -> Seq<char> {
    t[p].1
}

/// `p + 1` when position `p` holds a `k`, else `p`.
pub open spec fn skip(t: Toks, p: int, k: Token) -> int {
    if at(t, p, k) {
        p + 1
    } else {
        p
    }
}

/// `a <= b <= len`: a parse that started at `a` stopped at `b`, inside the sequence.
pub open spec fn mono(t: Toks, a: int, b: int) -> bool {
    a <= b <= t.len()
}

/// Whether `name` follows a `class` keyword somewhere in the token sequence.
pub open spec fn is_class_name(t: Toks, name: Seq<char>) -> bool {
    exists|i: int| 0 <= i && i + 1 < t.len() && at(t, i, Token::Class) && at(t, i + 1, Token::Identifier) && #[trigger] text(t, i + 1) == name
}

/// `v` holds exactly the class names of the token sequence.
pub open spec fn classes_ok(t: Toks, v: Seq<String>) -> bool {
    &&& forall|j: int| 0 <= j < v.len() ==> is_class_name(t, #[trigger] v[j]@)
    &&& forall|s: Seq<char>| #[trigger] is_class_name(t, s) ==> exists|j: int| 0 <= j < v.len() && v[j]@ == s
}

/// The view of an optional node.
pub open spec fn opt_view(o: Option<AstNode>) -> Option<SpecAst> {
    match o {
        Some(n) => Some(node_view(n)),
        None => None,
    }
}

/// An optional node, boxed.
pub open spec fn opt_box(o: Option<SpecAst>) -> Option<Box<SpecAst>> {
    match o {
        Some(n) => Some(Box::new(n)),
        None => None,
    }
}

/// The operator that a token stands for at a binary precedence level (0: `or`, 1: `and`,
/// 2: comparisons, 3: `|`, 4: `^`, 5: `&`, 6: shifts, 7: `+ -`, 8: `* / % // **`).
pub open spec fn level_op(lv: int, k: Token) -> Option<Seq<char>> {
    if lv == 0 {
        if k is Or { Some("or"@) } else { None }
    } else if lv == 1 {
        if k is And { Some("and"@) } else { None }
    } else if lv == 2 {
        match k {
            Token::DoubleEqual => Some("=="@),
            Token::NotEqual => Some("!="@),
            Token::Less => Some("<"@),
            Token::LessEqual => Some("<="@),
            Token::Greater => Some(">"@),
            Token::GreaterEqual => Some(">="@),
            _ => None,
        }
    } else if lv == 3 {
        if k is BitwiseOr { Some("|"@) } else { None }
    } else if lv == 4 {
        if k is BitwiseXor { Some("^"@) } else { None }
    } else if lv == 5 {
        if k is BitwiseAnd { Some("&"@) } else { None }
    } else if lv == 6 {
        match k {
            Token::LeftShift => Some("<<"@),
            Token::RightShift => Some(">>"@),
            _ => None,
        }
    } else if lv == 7 {
        match k {
            Token::Plus => Some("+"@),
            Token::Minus => Some("-"@),
            _ => None,
        }
    } else if lv == 8 {
        match k {
            Token::Star => Some("*"@),
            Token::Slash => Some("/"@),
            Token::Mod => Some("%"@),
            Token::FloorDiv => Some("//"@),
            Token::Pow => Some("**"@),
            _ => None,
        }
    } else {
        None
    }
}

/// The operator of level `lv` that a token view denotes, if any.
pub open spec fn level_op_of(lv: int, k: LexKind) -> Option<Seq<char>> {
    match k {
        LexKind::Plain(t) => level_op(lv, t),
        LexKind::Builtin(_) => None,
    }
}

/// The termination rank of a binary-operator level.
pub open spec fn level_rank(lv: int) -> int {
    if 0 <= lv < 9 {
        5 + 2 * (9 - lv)
    } else {
        5
    }
}

/// Identifiers separated by commas, as `for` targets and `lambda` parameters are read.
pub open spec fn ident_list(t: Toks, acc: Seq<Seq<char>>, p: int) -> (Seq<Seq<char>>, int)
    decreases t.len() - p,
{
    if at(t, p, Token::Identifier) {
        let acc2 = acc.push(text(t, p));
        if at(t, p + 1, Token::Comma) {
            ident_list(t, acc2, p + 2)
        } else {
            (acc2, p + 1)
        }
    } else {
        (acc, p)
    }
}

/// An expression starting at `p`.
pub open spec fn expr_at(t: Toks, p: int) -> (Option<SpecAst>, int)
    decreases t.len() - p, 30int,
{
    level_at(t, p, 0)
}

/// An expression of precedence level `lv` or tighter, starting at `p`.
pub open spec fn level_at(t: Toks, p: int, lv: int) -> (Option<SpecAst>, int)
    decreases t.len() - p, level_rank(lv),
{
    if lv < 0 || lv >= 9 {
        unary_at(t, p)
    } else {
        let (n, p1) = level_at(t, p, lv + 1);
        match n {
            None => (None, p1),
            Some(n) => if mono(t, p, p1) {
                level_loop(t, n, p1, lv)
            } else {
                (None, p1)
            },
        }
    }
}

/// Left-associative chain of level-`lv` operators after the operand `n`.
pub open spec fn level_loop(t: Toks, n: SpecAst, p: int, lv: int) -> (Option<SpecAst>, int)
    decreases t.len() - p, level_rank(lv) - 1,
{
    if 0 <= p < t.len() && 0 <= lv < 9 {
        match level_op_of(lv, t[p].0) {
            Some(op) => {
                let (r, p2) = level_at(t, p + 1, lv + 1);
                match r {
                    None => (None, p2),
                    Some(r) => if mono(t, p + 1, p2) {
                        level_loop(t, SpecAst::BinaryOp { left: Box::new(n), op, right: Box::new(r) }, p2, lv)
                    } else {
                        (None, p2)
                    },
                }
            },
            None => (Some(n), p),
        }
    } else {
        (Some(n), p)
    }
}

/// Prefix `not` and `~`.
pub open spec fn unary_at(t: Toks, p: int) -> (Option<SpecAst>, int)
    decreases t.len() - p, 3int,
{
    if at(t, p, Token::Not) || at(t, p, Token::BitwiseNot) {
        let op = if at(t, p, Token::Not) { "not"@ } else { "~"@ };
        let (e, p1) = unary_at(t, p + 1);
        match e {
            None => (None, p1),
            Some(e) => (Some(SpecAst::UnaryOp { op, expr: Box::new(e) }), p1),
        }
    } else {
        atom_at(t, p)
    }
}

/// A primary expression.
pub open spec fn atom_at(t: Toks, p: int) -> (Option<SpecAst>, int)
    decreases t.len() - p, 2int,
{
    if !(0 <= p < t.len()) {
        (None, p)
    } else {
        match t[p].0 {
            LexKind::Builtin(name) => postfix_from(t, SpecAst::Identifier(name), p + 1),
            LexKind::Plain(k) => match k {
            Token::Lambda => {
                let (ps, p1) = ident_list(t, Seq::empty(), p + 1);
                if !mono(t, p + 1, p1) {
                    (None, p1)
                } else if at(t, p1, Token::Colon) {
                    let (b, p2) = expr_at(t, p1 + 1);
                    match b {
                        Some(b) => (
                            Some(SpecAst::Lambda {
                                params: ps.map_values(|s: Seq<char>| SpecParam::Normal(s)),
                                body: Box::new(b),
                            }),
                            p2,
                        ),
                        None => (None, p2),
                    }
                } else {
                    (None, p1)
                }
            },
            Token::Identifier => postfix_from(t, SpecAst::Identifier(text(t, p)), p + 1),
            Token::Integer => (
                match i64_of_text(text(t, p)) {
                    Some(v) => Some(SpecAst::Integer(v)),
                    None => None,
                },
                p + 1,
            ),
            Token::Float => (
                match decimal_text(text(t, p)) {
                    Some(f) => Some(SpecAst::Float(f)),
                    None => None,
                },
                p + 1,
            ),
            Token::String => (Some(SpecAst::String(text(t, p))), p + 1),
            Token::True => (Some(SpecAst::Bool(true)), p + 1),
            Token::False => (Some(SpecAst::Bool(false)), p + 1),
            Token::NoneKw => (Some(SpecAst::NoneLiteral), p + 1),
            Token::LBracket => {
                let (items, p1) = seq_items(t, Seq::empty(), p + 1, Token::RBracket);
                (Some(SpecAst::List(items)), skip(t, p1, Token::RBracket))
            },
            Token::LBrace => {
                let (pairs, is_dict, p1) = dict_items(t, Seq::empty(), false, p + 1);
                let p2 = skip(t, p1, Token::RBrace);
                if is_dict {
                    (Some(SpecAst::Dict(pairs)), p2)
                } else {
                    (Some(SpecAst::SetLiteral(pairs.map_values(|kv: (SpecAst, SpecAst)| kv.0))), p2)
                }
            },
            Token::LParen => {
                let (e, p1) = expr_at(t, p + 1);
                if !mono(t, p + 1, p1) {
                    (None, p1)
                } else if at(t, p1, Token::Comma) {
                    let first = match e {
                        Some(x) => seq![x],
                        None => Seq::empty(),
                    };
                    let (items, p2) = tuple_items(t, first, p1);
                    (Some(SpecAst::Tuple(items)), skip(t, p2, Token::RParen))
                } else {
                    match e {
                        None => (None, p1),
                        Some(inner) => (Some(SpecAst::Paren(Box::new(inner))), skip(t, p1, Token::RParen)),
                    }
                }
            },
            _ => (None, p),
            },
        }
    }
}

/// Attribute access, indexing, slicing and calls after the primary `n`.
pub open spec fn postfix_from(t: Toks, n: SpecAst, p: int) -> (Option<SpecAst>, int)
    decreases t.len() - p, 1int,
{
    if at(t, p, Token::Dot) {
        if at(t, p + 1, Token::Identifier) {
            postfix_from(t, SpecAst::Attribute { value: Box::new(n), attr: text(t, p + 1) }, p + 2)
        } else {
            (Some(n), p + 1)
        }
    } else if at(t, p, Token::LBracket) {
        let (n2, q) = index_part(t, n, p);
        if p < q <= t.len() {
            postfix_from(t, n2, q)
        } else {
            (Some(n2), q)
        }
    } else if at(t, p, Token::LParen) {
        let (args, q1) = seq_items(t, Seq::empty(), p + 1, Token::RParen);
        let q2 = skip(t, q1, Token::RParen);
        let n2 = match n {
            SpecAst::Identifier(name) => if is_class_name(t, name) {
                SpecAst::Instance { class: name, args }
            } else {
                SpecAst::Call { func: Box::new(n), args }
            },
            _ => SpecAst::Call { func: Box::new(n), args },
        };
        if p < q2 <= t.len() {
            postfix_from(t, n2, q2)
        } else {
            (Some(n2), q2)
        }
    } else {
        (Some(n), p)
    }
}

/// The node that a call on the bare name `c` builds: an instantiation when a `class`
/// declaration anywhere in the token sequence (before or after the call) names `c`, a plain
/// call otherwise.
pub open spec fn call_on_name(t: Toks, c: Seq<char>, args: Seq<SpecAst>) -> SpecAst {
    if is_class_name(t, c) {
        SpecAst::Instance { class: c, args }
    } else {
        SpecAst::Call { func: Box::new(SpecAst::Identifier(c)), args }
    }
}

/// A call on a bare name is an instantiation exactly when the name is a declared class:
/// after the name, an argument list builds `call_on_name`, and reading goes on after it.
pub proof fn lemma_call_on_class_name(t: Toks, c: Seq<char>, p: int)
    requires
        at(t, p, Token::LParen),
    ensures
        ({
            let (args, q1) = seq_items(t, Seq::empty(), p + 1, Token::RParen);
            let q2 = skip(t, q1, Token::RParen);
            postfix_from(t, SpecAst::Identifier(c), p) == if p < q2 <= t.len() {
                postfix_from(t, call_on_name(t, c, args), q2)
            } else {
                (Some(call_on_name(t, c, args)), q2)
            }
        }),
{
}

/// `[index]` or `[start:end:step]` after `n`; `p` is the position of `[`.
pub open spec fn index_part(t: Toks, n: SpecAst, p: int) -> (SpecAst, int)
    decreases t.len() - p, 0int,
{
    let q0 = p + 1;
    let (start, q1) = if at(t, q0, Token::Colon) || !(0 <= p < t.len()) {
        (None, q0)
    } else {
        expr_at(t, q0)
    };
    if !(p < q0 && mono(t, q0, q1)) {
        (n, q1)
    } else if at(t, q1, Token::Colon) {
        let r0 = q1 + 1;
        let (end, r1) = if !at(t, r0, Token::Colon) && !at(t, r0, Token::RBracket) {
            expr_at(t, r0)
        } else {
            (None, r0)
        };
        if !mono(t, r0, r1) {
            (n, r1)
        } else {
            let (step, r2) = if at(t, r1, Token::Colon) {
                if !at(t, r1 + 1, Token::RBracket) {
                    expr_at(t, r1 + 1)
                } else {
                    (None, r1 + 1)
                }
            } else {
                (None, r1)
            };
            (
                SpecAst::Slice { value: Box::new(n), start: opt_box(start), end: opt_box(end), step: opt_box(step) },
                skip(t, r2, Token::RBracket),
            )
        }
    } else {
        let n2 = match start {
            Some(s) => SpecAst::Index { value: Box::new(n), index: Box::new(s) },
            None => n,
        };
        (n2, skip(t, q1, Token::RBracket))
    }
}

/// Comma-separated expressions up to the closing token `close` (not consumed).
pub open spec fn seq_items(t: Toks, acc: Seq<SpecAst>, p: int, close: Token) -> (Seq<SpecAst>, int)
    decreases t.len() - p, 31int,
{
    if at(t, p, close) {
        (acc, p)
    } else {
        let (e, p1) = expr_at(t, p);
        match e {
            None => (acc, p1),
            Some(x) => if p < p1 <= t.len() {
                seq_items(t, acc.push(x), skip(t, p1, Token::Comma), close)
            } else {
                (acc, p1)
            },
        }
    }
}

/// The entries of a `{...}` display: `key: value` pairs (a dict) or bare keys (a set);
/// a bare key is paired with `None`. The flag tells whether a `:` was seen.
pub open spec fn dict_items(t: Toks, pairs: Seq<(SpecAst, SpecAst)>, is_dict: bool, p: int) -> (
    Seq<(SpecAst, SpecAst)>,
    bool,
    int,
)
    decreases t.len() - p, 31int,
{
    if at(t, p, Token::RBrace) {
        (pairs, is_dict, p)
    } else {
        let (k, p1) = expr_at(t, p);
        match k {
            None => (pairs, is_dict, p1),
            Some(k) => if !(p < p1 <= t.len()) {
                (pairs, is_dict, p1)
            } else if at(t, p1, Token::Colon) {
                let (v, p2) = expr_at(t, p1 + 1);
                match v {
                    None => (pairs, true, p2),
                    Some(v) => if mono(t, p1 + 1, p2) {
                        dict_items(t, pairs.push((k, v)), true, skip(t, p2, Token::Comma))
                    } else {
                        (pairs, true, p2)
                    },
                }
            } else {
                dict_items(t, pairs.push((k, SpecAst::NoneLiteral)), is_dict, skip(t, p1, Token::Comma))
            },
        }
    }
}

/// The remaining items of a tuple display, after its first item; `p` is at a `,`.
pub open spec fn tuple_items(t: Toks, acc: Seq<SpecAst>, p: int) -> (Seq<SpecAst>, int)
    decreases t.len() - p, 31int,
{
    if at(t, p, Token::RParen) {
        (acc, p)
    } else {
        let p1 = skip(t, p, Token::Comma);
        let (e, p2) = expr_at(t, p1);
        match e {
            None => (acc, p2),
            Some(x) => if p1 < p2 <= t.len() {
                tuple_items(t, acc.push(x), p2)
            } else {
                (acc, p2)
            },
        }
    }
}


/// What a statement-level parse does: it runs forever (the cursor stops moving inside a
/// loop that only ends when it moves), or it returns a result and the stop position.
pub enum Run<A> {
    Hangs,
    Done(A, int),
}

/// Names separated by commas up to `)`, as base classes and `def` parameters are read;
/// a built-in name counts with its English spelling.
pub open spec fn name_list(t: Toks, acc: Seq<Seq<char>>, p: int) -> (Seq<Seq<char>>, int)
    decreases t.len() - p,
{
    if 0 <= p < t.len() {
        match t[p].0 {
            LexKind::Builtin(f) => name_list(t, acc.push(f), skip(t, p + 1, Token::Comma)),
            LexKind::Plain(Token::RParen) => (acc, p),
            LexKind::Plain(Token::Identifier) => name_list(t, acc.push(text(t, p)), skip(t, p + 1, Token::Comma)),
            _ => (acc, p),
        }
    } else {
        (acc, p)
    }
}

/// The position after any run of `Newline` tokens at `p`.
pub open spec fn skip_newlines(t: Toks, p: int) -> int
    decreases t.len() - p,
{
    if at(t, p, Token::Newline) {
        skip_newlines(t, p + 1)
    } else {
        p
    }
}

/// The position of the next `Newline` or `Dedent` at or after `p` (or the end).
pub open spec fn skip_to_eol(t: Toks, p: int) -> int
    decreases t.len() - p,
{
    if 0 <= p < t.len() && !at(t, p, Token::Newline) && !at(t, p, Token::Dedent) {
        skip_to_eol(t, p + 1)
    } else {
        p
    }
}

/// `, expr` repeated after the first value of a multiple assignment.
pub open spec fn comma_exprs(t: Toks, acc: Seq<SpecAst>, p: int) -> (Seq<SpecAst>, int)
    decreases t.len() - p,
{
    if at(t, p, Token::Comma) {
        let (v, p1) = expr_at(t, p + 1);
        match v {
            None => (acc, p1),
            Some(v) => if mono(t, p + 1, p1) {
                comma_exprs(t, acc.push(v), p1)
            } else {
                (acc, p1)
            },
        }
    } else {
        (acc, p)
    }
}

/// `import module [as alias]`; `p` is at `import`.
pub open spec fn import_stmt(t: Toks, p: int) -> (Option<SpecAst>, int) {
    let q = p + 1;
    if !at(t, q, Token::Identifier) {
        (None, q)
    } else if at(t, q + 1, Token::As) {
        if at(t, q + 2, Token::Identifier) {
            (Some(SpecAst::Import { module: text(t, q), alias: Some(text(t, q + 2)) }), q + 3)
        } else {
            (None, q + 2)
        }
    } else {
        (Some(SpecAst::Import { module: text(t, q), alias: None }), q + 1)
    }
}

/// The names of `from m import a [as b], ...`; `None` when an `as` lacks its alias.
pub open spec fn from_names(t: Toks, acc: Seq<(Seq<char>, Option<Seq<char>>)>, p: int) -> (
    Option<Seq<(Seq<char>, Option<Seq<char>>)>>,
    int,
)
    decreases t.len() - p,
{
    if at(t, p, Token::Identifier) {
        let name = text(t, p);
        if at(t, p + 1, Token::As) {
            if at(t, p + 2, Token::Identifier) {
                let acc2 = acc.push((name, Some(text(t, p + 2))));
                if at(t, p + 3, Token::Comma) {
                    from_names(t, acc2, p + 4)
                } else {
                    (Some(acc2), p + 3)
                }
            } else {
                (None, p + 2)
            }
        } else {
            let acc2 = acc.push((name, None));
            if at(t, p + 1, Token::Comma) {
                from_names(t, acc2, p + 2)
            } else {
                (Some(acc2), p + 1)
            }
        }
    } else {
        (Some(acc), p)
    }
}

/// `from module import names`; `p` is at `from`.
pub open spec fn from_stmt(t: Toks, p: int) -> (Option<SpecAst>, int) {
    let q = p + 1;
    if !at(t, q, Token::Identifier) {
        (None, q)
    } else if !at(t, q + 1, Token::Import) {
        (None, q + 1)
    } else {
        match from_names(t, Seq::empty(), q + 2) {
            (Some(names), r) => (Some(SpecAst::ImportFrom { module: text(t, q), names }), r),
            (None, r) => (None, r),
        }
    }
}

/// The target text of a `for`: the single name, or the names joined by `, `.
pub open spec fn for_target(vars: Seq<Seq<char>>) -> Seq<char> {
    if vars.len() == 1 {
        vars[0]
    } else {
        join(vars, ", "@)
    }
}

/// Plain parameters with the given names.
pub open spec fn normal_params_of(s: Seq<Seq<char>>) -> Seq<SpecParam> {
    s.map_values(|x: Seq<char>| SpecParam::Normal(x))
}

/// The name after `def`: an identifier, or a built-in name in its English spelling.
pub open spec fn def_name(t: Toks, p: int) -> Option<Seq<char>> {
    if 0 <= p < t.len() {
        match t[p].0 {
            LexKind::Plain(Token::Identifier) => Some(text(t, p)),
            LexKind::Builtin(f) => Some(f),
            _ => None,
        }
    } else {
        None
    }
}

/// A statement starting at `p`.
pub open spec fn stmt_at(t: Toks, p: int) -> Run<Option<SpecAst>>
    decreases t.len() + 1 - p, 1int,
{
    if !(0 <= p <= t.len()) {
        Run::Done(None, p)
    } else if at(t, p, Token::Import) {
        let (n, q) = import_stmt(t, p);
        Run::Done(n, q)
    } else if at(t, p, Token::From) {
        let (n, q) = from_stmt(t, p);
        Run::Done(n, q)
    } else if at(t, p, Token::Class) {
        if at(t, p + 1, Token::Identifier) {
            let name = text(t, p + 1);
            let q = p + 2;
            let (bases, q1) = if at(t, q, Token::LParen) {
                let (b, r) = name_list(t, Seq::empty(), q + 1);
                (b, skip(t, r, Token::RParen))
            } else {
                (Seq::empty(), q)
            };
            let q3 = skip_newlines(t, skip(t, q1, Token::Colon));
            if p < q3 <= t.len() {
                match block_at(t, q3) {
                    Run::Hangs => Run::Hangs,
                    Run::Done(body, q4) => Run::Done(Some(SpecAst::Class { name, bases, body }), q4),
                }
            } else {
                Run::Done(None, q3)
            }
        } else {
            Run::Done(None, p + 1)
        }
    } else if at(t, p, Token::Def) {
        match def_name(t, p + 1) {
            None => Run::Done(None, p + 1),
            Some(name) => {
                let q = p + 2;
                if !at(t, q, Token::LParen) {
                    Run::Done(None, q)
                } else {
                    let (ps, r) = name_list(t, Seq::empty(), q + 1);
                    let q3 = skip_newlines(t, skip(t, skip(t, r, Token::RParen), Token::Colon));
                    if p < q3 <= t.len() {
                        match block_at(t, q3) {
                            Run::Hangs => Run::Hangs,
                            Run::Done(body, q4) => Run::Done(
                                Some(SpecAst::Def { name, params: normal_params_of(ps), body }),
                                q4,
                            ),
                        }
                    } else {
                        Run::Done(None, q3)
                    }
                }
            },
        }
    } else if at(t, p, Token::If) {
        let (c, q) = expr_at(t, p + 1);
        match c {
            None => Run::Done(None, q),
            Some(c) => {
                let q2 = skip_newlines(t, skip(t, q, Token::Colon));
                if p < q2 <= t.len() {
                    match block_at(t, q2) {
                        Run::Hangs => Run::Hangs,
                        Run::Done(body, q3) => if q2 <= q3 <= t.len() + 1 {
                            match elif_else(t, q3) {
                                Run::Hangs => Run::Hangs,
                                Run::Done(orelse, q4) => Run::Done(
                                    Some(SpecAst::If { cond: Box::new(c), body, orelse }),
                                    q4,
                                ),
                            }
                        } else {
                            Run::Hangs
                        },
                    }
                } else {
                    Run::Done(None, q2)
                }
            },
        }
    } else if at(t, p, Token::For) {
        let (vars, q) = ident_list(t, Seq::empty(), p + 1);
        if !(at(t, q, Token::In) && p < q) {
            Run::Done(None, q)
        } else {
            let (it, q1) = expr_at(t, q + 1);
            match it {
                None => Run::Done(None, q1),
                Some(it) => {
                    let q2 = skip_newlines(t, skip(t, q1, Token::Colon));
                    if p < q2 <= t.len() {
                        match block_at(t, q2) {
                            Run::Hangs => Run::Hangs,
                            Run::Done(body, q3) => Run::Done(
                                Some(SpecAst::For { var: for_target(vars), iter: Box::new(it), body }),
                                q3,
                            ),
                        }
                    } else {
                        Run::Done(None, q2)
                    }
                },
            }
        }
    } else if at(t, p, Token::Return) {
        if at(t, p + 1, Token::Newline) {
            Run::Done(Some(SpecAst::Return(None)), p + 1)
        } else {
            let (e, q) = expr_at(t, p + 1);
            match e {
                None => Run::Done(None, q),
                Some(e) => Run::Done(Some(SpecAst::Return(Some(Box::new(e)))), q),
            }
        }
    } else if at(t, p, Token::Break) {
        Run::Done(Some(SpecAst::Break), p + 1)
    } else if at(t, p, Token::Continue) {
        Run::Done(Some(SpecAst::Continue), p + 1)
    } else if at(t, p, Token::Pass) {
        Run::Done(Some(SpecAst::Pass), p + 1)
    } else {
        let (vars, q) = ident_list(t, Seq::empty(), p);
        if vars.len() > 1 && at(t, q, Token::Equal) {
            let (first, q1) = expr_at(t, q + 1);
            match first {
                None => Run::Done(Some(SpecAst::MultiAssign { names: vars, values: Seq::empty() }), q1),
                Some(f) => {
                    let (vals, q2) = comma_exprs(t, seq![f], q1);
                    Run::Done(Some(SpecAst::MultiAssign { names: vars, values: vals }), q2)
                },
            }
        } else {
            let (e, q1) = expr_at(t, p);
            match e {
                None => Run::Done(None, q1),
                Some(e) => if at(t, q1, Token::Equal) {
                    let (v, q2) = expr_at(t, q1 + 1);
                    match v {
                        None => Run::Done(None, q2),
                        Some(v) => match e {
                            SpecAst::Identifier(name) => Run::Done(
                                Some(SpecAst::Assign { name, value: Box::new(v) }),
                                q2,
                            ),
                            SpecAst::Attribute { value, attr } => Run::Done(
                                Some(SpecAst::AttributeAssign { object: value, attr, value: Box::new(v) }),
                                q2,
                            ),
                            SpecAst::Index { value, index } => Run::Done(
                                Some(SpecAst::IndexAssign { object: value, index, value: Box::new(v) }),
                                q2,
                            ),
                            // Any other target: the expression is given back with the
                            // cursor reset to the start of the statement.
                            _ => Run::Done(Some(e), p),
                        },
                    }
                } else {
                    Run::Done(Some(e), q1)
                },
            }
        }
    }
}

/// A block: an indented run of statements up to the matching `Dedent`, or else one
/// statement on the same line, the rest of that line being skipped.
pub open spec fn block_at(t: Toks, p: int) -> Run<Seq<SpecAst>>
    decreases t.len() + 1 - p, 3int,
{
    if at(t, p, Token::Indent) {
        match block_loop(t, Seq::empty(), p + 1) {
            Run::Hangs => Run::Hangs,
            Run::Done(body, q) => Run::Done(body, skip(t, q, Token::Dedent)),
        }
    } else {
        match stmt_at(t, p) {
            Run::Hangs => Run::Hangs,
            Run::Done(s, q) => {
                let body = match s {
                    Some(x) => seq![x],
                    None => Seq::empty(),
                };
                Run::Done(body, skip(t, skip_to_eol(t, q), Token::Newline))
            },
        }
    }
}

/// The statements of an indented block, from `p` up to a `Dedent` or the end. A statement
/// that neither reads a node nor moves leaves the cursor where it was, and the loop runs
/// forever.
pub open spec fn block_loop(t: Toks, acc: Seq<SpecAst>, p: int) -> Run<Seq<SpecAst>>
    decreases t.len() + 1 - p, 2int,
{
    if 0 <= p < t.len() && !at(t, p, Token::Dedent) {
        match stmt_at(t, p) {
            Run::Hangs => Run::Hangs,
            Run::Done(Some(s), q) => {
                let q1 = skip(t, q, Token::Newline);
                if p < q1 <= t.len() + 1 {
                    block_loop(t, acc.push(s), q1)
                } else {
                    Run::Hangs
                }
            },
            Run::Done(None, q) => {
                let q1 = skip(t, q + 1, Token::Newline);
                if p < q1 <= t.len() + 1 {
                    block_loop(t, acc, q1)
                } else {
                    Run::Hangs
                }
            },
        }
    } else {
        Run::Done(acc, p)
    }
}

/// The `elif` / `else` branches after an `if` body: an `elif` becomes a single nested `If`.
pub open spec fn elif_else(t: Toks, p: int) -> Run<Seq<SpecAst>>
    decreases t.len() + 1 - p, 2int,
{
    if at(t, p, Token::Elif) {
        let (c, q) = expr_at(t, p + 1);
        match c {
            None => Run::Done(Seq::empty(), q),
            Some(c) => {
                let q2 = skip_newlines(t, skip(t, q, Token::Colon));
                if p < q2 <= t.len() {
                    match block_at(t, q2) {
                        Run::Hangs => Run::Hangs,
                        Run::Done(body, q3) => if q2 <= q3 <= t.len() + 1 {
                            match elif_else(t, q3) {
                                Run::Hangs => Run::Hangs,
                                Run::Done(orelse, q4) => Run::Done(
                                    seq![SpecAst::If { cond: Box::new(c), body, orelse }],
                                    q4,
                                ),
                            }
                        } else {
                            Run::Hangs
                        },
                    }
                } else {
                    Run::Done(Seq::empty(), q2)
                }
            },
        }
    } else if at(t, p, Token::Else) {
        let q = skip_newlines(t, skip(t, p + 1, Token::Colon));
        if p < q <= t.len() {
            block_at(t, q)
        } else {
            Run::Done(Seq::empty(), q)
        }
    } else {
        Run::Done(Seq::empty(), p)
    }
}

/// The top-level statements from `p` on. A statement that yields no node makes the parser
/// skip one more token; one that yields a node without moving makes it run forever.
pub open spec fn program_loop(t: Toks, acc: Seq<SpecAst>, p: int) -> Run<Seq<SpecAst>>
    decreases t.len() + 1 - p,
{
    if 0 <= p < t.len() {
        match stmt_at(t, p) {
            Run::Hangs => Run::Hangs,
            Run::Done(Some(s), q) => if p < q <= t.len() + 1 {
                program_loop(t, acc.push(s), q)
            } else {
                Run::Hangs
            },
            Run::Done(None, q) => if p <= q <= t.len() {
                program_loop(t, acc, q + 1)
            } else {
                Run::Hangs
            },
        }
    } else {
        Run::Done(acc, p)
    }
}

/// The program that the parser builds from `t`, or `None` when it runs forever.
pub open spec fn program_of(t: Toks) -> Option<SpecAst> {
    match program_loop(t, Seq::empty(), 0) {
        Run::Hangs => None,
        Run::Done(stmts, _) => Some(SpecAst::Program(stmts)),
    }
}


/// The entries of a brace display read from `q` on, where no colon follows, never make it a
/// dict: the dict flag stays as it came in.
proof fn lemma_dict_items_without_colon(t: Toks, pairs: Seq<(SpecAst, SpecAst)>, q: int)
    requires
        0 <= q,
        forall|j: int| q <= j < t.len() ==> !at(t, j, Token::Colon),
    ensures
        !dict_items(t, pairs, false, q).1,
    decreases t.len() - q,
{
    if !at(t, q, Token::RBrace) {
        let (k, p1) = expr_at(t, q);
        match k {
            None => {},
            Some(k) => {
                if q < p1 <= t.len() && !at(t, p1, Token::Colon) {
                    let q2 = skip(t, p1, Token::Comma);
                    if q2 <= t.len() {
                        lemma_dict_items_without_colon(t, pairs.push((k, SpecAst::NoneLiteral)), q2);
                    }
                }
            },
        }
    }
}

/// A brace display none of whose entries has a `:` is a set display: the parser reads
/// `{a, b, ...}` as a set literal, and only a `:` makes it a dict.
pub proof fn lemma_brace_without_colon_is_set(t: Toks, p: int)
    requires
        at(t, p, Token::LBrace),
        forall|j: int| p <= j < t.len() ==> !at(t, j, Token::Colon),
    ensures
        atom_at(t, p).0 is Some,
        atom_at(t, p).0.unwrap() is SetLiteral,
{
    lemma_dict_items_without_colon(t, Seq::empty(), p + 1);
}

} // verus!
