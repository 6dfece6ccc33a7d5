//! Python source text for a syntax tree.
use vstd::prelude::*;
use vstd::string::StringExecFns;
use crate::ast::{AstNode, Parameter, SpecAst, SpecParam, node_view, nodes_view, pairs_view, param_view, params_view, strings_view, import_names_view, opt_string_view};
use crate::text::{join, i64_text, push_char, push_i64_text, is_text, chars_of, lemma_join_push};

verus! {

/// `n` levels of four-space indentation.
pub open spec fn ind(n: nat) -> Seq<char>
    decreases n,
{
    if n == 0 {
        Seq::empty()
    } else {
        ind((n - 1) as nat) + "    "@
    }
}

/// A parameter as written in a `def` or `lambda` header.
pub open spec fn param_text(p: SpecParam) -> Seq<char> {
    match p {
        SpecParam::Normal(s) => s,
        SpecParam::Args(s) => "*"@ + s,
        SpecParam::Kwargs(s) => "**"@ + s,
    }
}

/// A parameter list, joined by `, `.
pub open spec fn params_text(ps: Seq<SpecParam>) -> Seq<char> {
    join(ps.map_values(|p: SpecParam| param_text(p)), ", "@)
}

/// A name of `from m import ...`, with its alias.
pub open spec fn import_name_text(n: (Seq<char>, Option<Seq<char>>)) -> Seq<char> {
    match n.1 {
        Some(a) => n.0 + " as "@ + a,
        None => n.0,
    }
}

/// A Chinese quote made ASCII: `“` and `”` become `"`, `‘` and `’` become `'`.
pub open spec fn ascii_quote(c: char) -> char {
    if c == '“' || c == '”' {
        '"'
    } else if c == '‘' || c == '’' {
        '\''
    } else {
        c
    }
}

/// A string literal with its Chinese quotes made ASCII.
pub open spec fn quotes_text(s: Seq<char>) -> Seq<char> {
    s.map_values(|c: char| ascii_quote(c))
}

/// The Python text of a node at indentation level `k`. Statements are indented; other
/// expressions are not.
pub open spec fn render(n: SpecAst, k: nat) -> Seq<char>
    decreases n, 0int,
{
    match n {
        SpecAst::Instance { class, args } => ind(k) + class + "("@ + join(render_all(args, 0), ", "@) + ")"@,
        SpecAst::Class { name, bases, body } => ind(k) + "class "@ + name + (if bases.len() == 0 {
            Seq::empty()
        } else {
            "("@ + join(bases, ", "@) + ")"@
        }) + ":\n"@ + body_text(body, k + 1),
        SpecAst::Program(stmts) => join(render_all(stmts, k), "\n"@),
        SpecAst::Def { name, params, body } => ind(k) + "def "@ + name + "("@ + params_text(params) + "):\n"@
            + body_text(body, k + 1),
        SpecAst::If { cond, body, orelse } => ind(k) + "if "@ + cond_text(*cond) + ":\n"@ + body_text(body, k + 1)
            + else_chain(orelse, k),
        SpecAst::For { var, iter, body } => ind(k) + "for "@ + var + " in "@ + render(*iter, 0) + ":\n"@ + body_text(
            body,
            k + 1,
        ),
        SpecAst::Return(v) => match v {
            Some(e) => ind(k) + "return "@ + render(*e, 0),
            None => ind(k) + "return"@,
        },
        SpecAst::Break => ind(k) + "break"@,
        SpecAst::Continue => ind(k) + "continue"@,
        SpecAst::Pass => ind(k) + "pass"@,
        SpecAst::Assign { name, value } => ind(k) + name + " = "@ + render(*value, 0),
        SpecAst::MultiAssign { names, values } => ind(k) + join(names, ", "@) + " = "@ + join(render_all(values, 0), ", "@),
        SpecAst::AttributeAssign { object, attr, value } => ind(k) + render(*object, 0) + "."@ + attr + " = "@ + render(
            *value,
            0,
        ),
        SpecAst::IndexAssign { object, index, value } => ind(k) + render(*object, 0) + "["@ + render(*index, 0)
            + "] = "@ + render(*value, 0),
        SpecAst::Range { start, end, step } => match step {
            Some(st) => render(*start, 0) + ":"@ + render(*end, 0) + ":"@ + render(*st, 0),
            None => render(*start, 0) + ":"@ + render(*end, 0),
        },
        SpecAst::BinaryOp { left, op, right } => match *left {
            SpecAst::Call { func, args } => if render(*func, 0) == "print"@ && args.len() == 1 {
                "print("@ + render(args[0], 0) + " % "@ + render(*right, 0) + ")"@
            } else {
                render(*left, 0) + " "@ + op + " "@ + render(*right, 0)
            },
            _ => render(*left, 0) + " "@ + op + " "@ + render(*right, 0),
        },
        SpecAst::Paren(inner) => "("@ + render(*inner, 0) + ")"@,
        SpecAst::UnaryOp { op, expr } => "("@ + op + " "@ + render(*expr, 0) + ")"@,
        SpecAst::Identifier(name) => name,
        SpecAst::Integer(v) => i64_text(v),
        SpecAst::Float(f) => f,
        SpecAst::String(s) => quotes_text(s),
        SpecAst::Bool(b) => if b { "True"@ } else { "False"@ },
        SpecAst::NoneLiteral => "None"@,
        SpecAst::List(items) => "["@ + join(render_all(items, 0), ", "@) + "]"@,
        SpecAst::Tuple(items) => if items.len() == 1 {
            "("@ + join(render_all(items, 0), ", "@) + ",)"@
        } else {
            "("@ + join(render_all(items, 0), ", "@) + ")"@
        },
        SpecAst::SetLiteral(items) => "{"@ + join(render_all(items, 0), ", "@) + "}"@,
        SpecAst::Dict(pairs) => "{"@ + join(render_pairs(pairs), ", "@) + "}"@,
        SpecAst::Call { func, args } => if render(*func, 0) == "print"@ && args.len() == 1 && args[0] is BinaryOp
            && args[0]->BinaryOp_op == "%"@ {
            match args[0] {
                SpecAst::BinaryOp { left, op, right } => ind(k) + "print("@ + render(*left, 0) + " % "@ + render(
                    *right,
                    0,
                ) + ")"@,
                _ => Seq::empty(),
            }
        } else {
            ind(k) + render(*func, 0) + "("@ + join(render_all(args, 0), ", "@) + ")"@
        },
        SpecAst::Index { value, index } => render(*value, 0) + "["@ + render(*index, 0) + "]"@,
        SpecAst::Slice { value, start, end, step } => {
            let s = match start {
                Some(e) => render(*e, 0),
                None => Seq::empty(),
            };
            let e = match end {
                Some(x) => render(*x, 0),
                None => Seq::empty(),
            };
            match step {
                Some(st) => render(*value, 0) + "["@ + s + ":"@ + e + ":"@ + render(*st, 0) + "]"@,
                None => render(*value, 0) + "["@ + s + ":"@ + e + "]"@,
            }
        },
        SpecAst::Attribute { value, attr } => render(*value, 0) + "."@ + attr,
        SpecAst::Import { module, alias } => match alias {
            Some(a) => "import "@ + module + " as "@ + a,
            None => "import "@ + module,
        },
        SpecAst::ImportFrom { module, names } => "from "@ + module + " import "@ + join(
            names.map_values(|x: (Seq<char>, Option<Seq<char>>)| import_name_text(x)),
            ", "@,
        ),
        SpecAst::Lambda { params, body } => "lambda "@ + params_text(params) + ": "@ + render(*body, 0),
    }
}

/// The texts of a sequence of nodes, each at level `k`.
pub open spec fn render_all(s: Seq<SpecAst>, k: nat) -> Seq<Seq<char>>
    decreases s, 0int,
{
    Seq::new(s.len(), |i: int| if 0 <= i < s.len() { render(s[i], k) } else { Seq::empty() })
}

/// The entries `key: value` of a dict display.
pub open spec fn render_pairs(s: Seq<(SpecAst, SpecAst)>) -> Seq<Seq<char>>
    decreases s, 0int,
{
    Seq::new(
        s.len(),
        |i: int| if 0 <= i < s.len() { render(s[i].0, 0) + ": "@ + render(s[i].1, 0) } else { Seq::empty() },
    )
}

/// A body at level `k`: its statements on separate lines, or `pass` when it is empty.
pub open spec fn body_text(body: Seq<SpecAst>, k: nat) -> Seq<char>
    decreases body, 1int,
{
    if body.len() == 0 {
        ind(k) + "pass"@
    } else {
        join(render_all(body, k), "\n"@)
    }
}

/// The condition of an `if` / `elif`, without one pair of outer parentheses.
pub open spec fn cond_text(c: SpecAst) -> Seq<char>
    decreases c, 1int,
{
    match c {
        SpecAst::Paren(inner) => render(*inner, 0),
        _ => render(c, 0),
    }
}

/// The `elif` / `else` lines after an `if` body at level `k`: a lone nested `If` becomes an
/// `elif` at the same level; any other non-empty branch becomes an `else`.
pub open spec fn else_chain(orelse: Seq<SpecAst>, k: nat) -> Seq<char>
    decreases orelse, 2int,
{
    if orelse.len() == 0 {
        Seq::empty()
    } else if orelse.len() == 1 && orelse[0] is If {
        match orelse[0] {
            SpecAst::If { cond, body, orelse: o2 } => "\n"@ + ind(k) + "elif "@ + cond_text(*cond) + ":\n"@ + body_text(
                body,
                k + 1,
            ) + else_chain(o2, k),
            _ => Seq::empty(),
        }
    } else {
        "\n"@ + ind(k) + "else:\n"@ + join(render_all(orelse, k + 1), "\n"@)
    }
}

/// Whether a node is written as a line of its own: the statements, calls and class
/// instantiations (a whole program is not one line).
pub open spec fn is_line(n: SpecAst) -> bool {
    n is Instance || n is Class || n is Def || n is If || n is For || n is Return || n is Break
        || n is Continue || n is Pass || n is Assign || n is MultiAssign || n is AttributeAssign || n is IndexAssign
        || n is Call
}

/// `k` levels of indentation are `4 * k` characters.
pub proof fn lemma_ind_len(k: nat)
    ensures
        ind(k).len() == 4 * k,
    decreases k,
{
    reveal_strlit("    ");
    if k > 0 {
        lemma_ind_len((k - 1) as nat);
    }
}

/// A line written at level `k` begins with `k` levels of indentation.
pub proof fn lemma_line_indented(n: SpecAst, k: nat)
    requires
        is_line(n),
    ensures
        render(n, k).len() >= 4 * k,
        render(n, k).take(4 * k as int) == ind(k),
{
    lemma_ind_len(k);
    let r = render(n, k);
    let p = ind(k);
    assert(r.len() >= p.len() && r.take(p.len() as int) =~= p) by {
        match n {
            SpecAst::Call { func, args } => {
                if render(*func, 0) == "print"@ && args.len() == 1 && args[0] is BinaryOp && args[0]->BinaryOp_op
                    == "%"@ {
                    match args[0] {
                        SpecAst::BinaryOp { left, op, right } => {},
                        _ => {},
                    }
                }
            },
            _ => {},
        }
    }
}

/// `s` with four spaces put after each of its newlines.
pub open spec fn shift(s: Seq<char>) -> Seq<char>
    decreases s.len(),
{
    if s.len() == 0 {
        Seq::empty()
    } else {
        shift(s.drop_last()) + if s.last() == '\n' {
            "\n    "@
        } else {
            seq![s.last()]
        }
    }
}

/// Whether a text has no newline.
pub open spec fn one_line(s: Seq<char>) -> bool {
    !s.contains('\n')
}

/// Whether a node's text at level 0 is one line.
#[verifier::opaque]
pub open spec fn flat_text(n: SpecAst) -> bool {
    one_line(render(n, 0))
}

/// Whether the condition of an `if` is written on one line.
#[verifier::opaque]
pub open spec fn flat_cond(c: SpecAst) -> bool {
    one_line(cond_text(c))
}

/// A statement whose text, at every level, is that of one level less with four spaces put
/// before each line: a statement of the kinds that `ast_to_python` writes as lines, whose
/// headers and expressions are each written on one line, and whose nested statements are
/// such statements again.
pub open spec fn shiftable(n: SpecAst) -> bool
    decreases n, 1int,
{
    match n {
        SpecAst::Def { name, params, body } => one_line(name) && one_line(params_text(params)) && all_true(shiftables(body)),
        SpecAst::Class { name, bases, body } => one_line(name) && one_line(join(bases, ", "@)) && all_true(shiftables(body)),
        SpecAst::If { cond, body, orelse } => flat_cond(*cond) && all_true(shiftables(body)) && all_true(shiftables(orelse)),
        SpecAst::For { var, iter, body } => one_line(var) && flat_text(*iter) && all_true(shiftables(body)),
        SpecAst::Return(_) | SpecAst::Break | SpecAst::Continue | SpecAst::Pass | SpecAst::Assign { .. }
        | SpecAst::MultiAssign { .. } | SpecAst::AttributeAssign { .. } | SpecAst::IndexAssign { .. }
        | SpecAst::Call { .. } | SpecAst::Instance { .. } => flat_text(n),
        _ => false,
    }
}

/// Whether every entry is true.
pub open spec fn all_true(b: Seq<bool>) -> bool {
    forall|i: int| 0 <= i < b.len() ==> #[trigger] b[i]
}

/// Which statements of `s` are `shiftable`.
pub open spec fn shiftables(s: Seq<SpecAst>) -> Seq<bool>
    decreases s, 0int,
{
    Seq::new(s.len(), |i: int| if 0 <= i < s.len() { shiftable(s[i]) } else { true })
}

proof fn lemma_shift_concat(a: Seq<char>, b: Seq<char>)
    ensures
        shift(a + b) == shift(a) + shift(b),
    decreases b.len(),
{
    if b.len() == 0 {
        assert(a + b =~= a);
        assert(shift(a) + shift(b) =~= shift(a));
    } else {
        lemma_shift_concat(a, b.drop_last());
        assert((a + b).drop_last() =~= a + b.drop_last());
        assert((a + b).last() == b.last());
        assert(shift(a + b) =~= shift(a) + shift(b));
    }
}

proof fn lemma_shift_one_line(a: Seq<char>)
    requires
        one_line(a),
    ensures
        shift(a) == a,
    decreases a.len(),
{
    if a.len() > 0 {
        assert(a.last() == a[a.len() - 1]);
        assert(one_line(a.drop_last())) by {
            if a.drop_last().contains('\n') {
                let j = choose|j: int| 0 <= j < a.drop_last().len() && a.drop_last()[j] == '\n';
                assert(a[j] == '\n');
            }
        }
        lemma_shift_one_line(a.drop_last());
        assert(a.drop_last().push(a.last()) =~= a);
    }
}

proof fn lemma_one_line_concat(a: Seq<char>, b: Seq<char>)
    requires
        one_line(a),
        one_line(b),
    ensures
        one_line(a + b),
{
    if (a + b).contains('\n') {
        let j = choose|j: int| 0 <= j < (a + b).len() && (a + b)[j] == '\n';
        if j < a.len() {
            assert(a[j] == '\n');
        } else {
            assert(b[j - a.len()] == '\n');
        }
    }
}

proof fn lemma_ind_front(k: nat)
    ensures
        ind(k + 1) == "    "@ + ind(k),
        one_line(ind(k)),
    decreases k,
{
    reveal_strlit("    ");
    if k > 0 {
        lemma_ind_front((k - 1) as nat);
        assert(ind(k + 1) =~= "    "@ + ind(k));
    } else {
        assert(ind(0) =~= Seq::<char>::empty());
        assert(ind(1) =~= "    "@);
    }
    assert(one_line("    "@));
    if k > 0 {
        lemma_one_line_concat(ind((k - 1) as nat), "    "@);
    } else {
        assert(ind(k) =~= Seq::<char>::empty());
    }
}

/// The join by newlines of texts each shifted one level is the join shifted one level.
proof fn lemma_shift_join(xs: Seq<Seq<char>>, ys: Seq<Seq<char>>)
    requires
        xs.len() >= 1,
        ys.len() == xs.len(),
        forall|i: int| 0 <= i < xs.len() ==> #[trigger] ys[i] == "    "@ + shift(xs[i]),
    ensures
        join(ys, "\n"@) == "    "@ + shift(join(xs, "\n"@)),
    decreases xs.len(),
{
    reveal_strlit("\n");
    reveal_strlit("    ");
    reveal_strlit("\n    ");
    if xs.len() == 1 {
        assert(ys[0] == "    "@ + shift(xs[0]));
    } else {
        let xi = xs.drop_last();
        let yi = ys.drop_last();
        assert forall|i: int| 0 <= i < xi.len() implies #[trigger] yi[i] == "    "@ + shift(xi[i]) by {
            assert(yi[i] == ys[i]);
            assert(xi[i] == xs[i]);
        }
        lemma_shift_join(xi, yi);
        let jx = join(xi, "\n"@);
        lemma_shift_concat(jx + "\n"@, xs.last());
        lemma_shift_concat(jx, "\n"@);
        assert(shift("\n"@) == "\n    "@) by {
            assert("\n"@.drop_last() =~= Seq::<char>::empty());
            reveal_with_fuel(shift, 2);
        }
        assert(ys.last() == ys[ys.len() - 1]);
        assert(join(ys, "\n"@) =~= "    "@ + shift(join(xs, "\n"@)));
    }
}

/// What `shiftable` asks of the parts of a compound statement.
proof fn lemma_shiftable_parts(n: SpecAst)
    requires
        shiftable(n),
    ensures
        n is Def ==> all_true(shiftables(n->Def_body)),
        n is Class ==> all_true(shiftables(n->Class_body)),
        n is For ==> all_true(shiftables(n->For_body)),
        n is If ==> all_true(shiftables(n->If_body)),
        n is If ==> all_true(shiftables(n->orelse)),
{
}

/// A header line, a body and a tail one level deeper are the shallower ones shifted.
proof fn lemma_shift_header(k: nat, h: Seq<char>, b0: Seq<char>, b1: Seq<char>, t0: Seq<char>, t1: Seq<char>)
    requires
        one_line(h),
        b1 == "    "@ + shift(b0),
        t1 == shift(t0),
    ensures
        ind(k + 1) + h + "\n"@ + b1 + t1 == "    "@ + shift(ind(k) + h + "\n"@ + b0 + t0),
{
    reveal_strlit("\n");
    reveal_strlit("    ");
    reveal_strlit("\n    ");
    lemma_ind_front(k);
    lemma_shift_one_line(ind(k));
    lemma_shift_one_line(h);
    lemma_shift_concat(ind(k), h);
    lemma_shift_concat(ind(k) + h, "\n"@);
    lemma_shift_concat(ind(k) + h + "\n"@, b0);
    lemma_shift_concat(ind(k) + h + "\n"@ + b0, t0);
    assert(shift("\n"@) == "\n    "@) by {
        assert("\n"@.drop_last() =~= Seq::<char>::empty());
        reveal_with_fuel(shift, 2);
    }
    assert(ind(k + 1) + h + "\n"@ + b1 + t1 =~= "    "@ + shift(ind(k) + h + "\n"@ + b0 + t0));
}

proof fn lemma_lit_one_line(s: Seq<char>)
    requires
        forall|i: int| 0 <= i < s.len() ==> s[i] != '\n',
    ensures
        one_line(s),
{
}

/// Each level of nesting adds four spaces before every line of a statement: written one
/// level deeper, a statement's text is its text with four spaces put before each line.
pub proof fn lemma_shift_render(n: SpecAst, k: nat)
    requires
        shiftable(n),
    ensures
        render(n, k + 1) == "    "@ + shift(render(n, k)),
    decreases n, 3int,
{
    match n {
        SpecAst::Def { .. } => lemma_shift_def(n, k),
        SpecAst::Class { .. } => lemma_shift_class(n, k),
        SpecAst::If { .. } => lemma_shift_if(n, k),
        SpecAst::For { .. } => lemma_shift_for(n, k),
        _ => lemma_shift_simple(n, k),
    }
}

proof fn lemma_shift_def(n: SpecAst, k: nat)
    requires
        n is Def,
        shiftable(n),
    ensures
        render(n, k + 1) == "    "@ + shift(render(n, k)),
    decreases n, 2int,
{
    lemma_shiftable_parts(n);
    reveal_strlit("\n");
    reveal_strlit(":\n");
    reveal_strlit("):\n");
    reveal_strlit(":");
    reveal_strlit("):");
    reveal_strlit("def ");
    reveal_strlit("(");
    reveal_strlit(")");
    reveal_strlit("class ");
    reveal_strlit("if ");
    reveal_strlit("for ");
    reveal_strlit(" in ");
    match n {
        SpecAst::Def { name, params, body } => {
            let h = "def "@ + name + "("@ + params_text(params) + "):"@;
            lemma_lit_one_line("def "@);
            lemma_lit_one_line("("@);
            lemma_lit_one_line("):"@);
            lemma_one_line_concat("def "@, name);
            lemma_one_line_concat("def "@ + name, "("@);
            lemma_one_line_concat("def "@ + name + "("@, params_text(params));
            lemma_one_line_concat("def "@ + name + "("@ + params_text(params), "):"@);
            lemma_shift_body(body, k + 1);
            lemma_shift_header(k, h, body_text(body, k + 1), body_text(body, k + 2), Seq::empty(), Seq::empty());
            assert("):\n"@ =~= "):"@ + "\n"@);
            assert(render(n, k) =~= ind(k) + h + "\n"@ + body_text(body, k + 1) + Seq::<char>::empty());
            assert(render(n, k + 1) =~= ind(k + 1) + h + "\n"@ + body_text(body, k + 2) + Seq::<char>::empty());
        },
        _ => {},
    }
}

#[verifier::rlimit(50)]
proof fn lemma_shift_class(n: SpecAst, k: nat)
    requires
        n is Class,
        shiftable(n),
    ensures
        render(n, k + 1) == "    "@ + shift(render(n, k)),
    decreases n, 2int,
{
    lemma_shiftable_parts(n);
    reveal_strlit("\n");
    reveal_strlit(":\n");
    reveal_strlit("):\n");
    reveal_strlit(":");
    reveal_strlit("):");
    reveal_strlit("def ");
    reveal_strlit("(");
    reveal_strlit(")");
    reveal_strlit("class ");
    reveal_strlit("if ");
    reveal_strlit("for ");
    reveal_strlit(" in ");
    match n {
        SpecAst::Class { name, bases, body } => {
            let bp = if bases.len() == 0 {
                Seq::<char>::empty()
            } else {
                "("@ + join(bases, ", "@) + ")"@
            };
            let h = "class "@ + name + bp + ":"@;
            lemma_lit_one_line("class "@);
            lemma_lit_one_line("("@);
            lemma_lit_one_line(")"@);
            lemma_lit_one_line(":"@);
            if bases.len() > 0 {
                lemma_one_line_concat("("@, join(bases, ", "@));
                lemma_one_line_concat("("@ + join(bases, ", "@), ")"@);
            } else {
                lemma_lit_one_line(bp);
            }
            lemma_one_line_concat("class "@, name);
            lemma_one_line_concat("class "@ + name, bp);
            lemma_one_line_concat("class "@ + name + bp, ":"@);
            lemma_shift_body(body, k + 1);
            lemma_shift_header(k, h, body_text(body, k + 1), body_text(body, k + 2), Seq::empty(), Seq::empty());
            assert(":\n"@ =~= ":"@ + "\n"@);
            assert(render(n, k) =~= ind(k) + h + "\n"@ + body_text(body, k + 1) + Seq::<char>::empty());
            assert(render(n, k + 1) =~= ind(k + 1) + h + "\n"@ + body_text(body, k + 2) + Seq::<char>::empty());
        },
        _ => {},
    }
}

#[verifier::rlimit(50)]
proof fn lemma_shift_if(n: SpecAst, k: nat)
    requires
        n is If,
        shiftable(n),
    ensures
        render(n, k + 1) == "    "@ + shift(render(n, k)),
    decreases n, 2int,
{
    reveal(flat_text);
    reveal(flat_cond);
    lemma_shiftable_parts(n);
    reveal_strlit("\n");
    reveal_strlit(":\n");
    reveal_strlit("):\n");
    reveal_strlit(":");
    reveal_strlit("):");
    reveal_strlit("def ");
    reveal_strlit("(");
    reveal_strlit(")");
    reveal_strlit("class ");
    reveal_strlit("if ");
    reveal_strlit("for ");
    reveal_strlit(" in ");
    match n {
        SpecAst::If { cond, body, orelse } => {
            let h = "if "@ + cond_text(*cond) + ":"@;
            lemma_lit_one_line("if "@);
            lemma_lit_one_line(":"@);
            lemma_one_line_concat("if "@, cond_text(*cond));
            lemma_one_line_concat("if "@ + cond_text(*cond), ":"@);
            lemma_shift_body(body, k + 1);
            lemma_shift_else(orelse, k);
            lemma_shift_header(k, h, body_text(body, k + 1), body_text(body, k + 2), else_chain(orelse, k), else_chain(orelse, k + 1));
            assert(":\n"@ =~= ":"@ + "\n"@);
            assert(render(n, k) =~= ind(k) + h + "\n"@ + body_text(body, k + 1) + else_chain(orelse, k));
            assert(render(n, k + 1) =~= ind(k + 1) + h + "\n"@ + body_text(body, k + 2) + else_chain(orelse, k + 1));
        },
        _ => {},
    }
}

#[verifier::rlimit(50)]
proof fn lemma_shift_for(n: SpecAst, k: nat)
    requires
        n is For,
        shiftable(n),
    ensures
        render(n, k + 1) == "    "@ + shift(render(n, k)),
    decreases n, 2int,
{
    reveal(flat_text);
    reveal(flat_cond);
    lemma_shiftable_parts(n);
    reveal_strlit("\n");
    reveal_strlit(":\n");
    reveal_strlit("):\n");
    reveal_strlit(":");
    reveal_strlit("):");
    reveal_strlit("def ");
    reveal_strlit("(");
    reveal_strlit(")");
    reveal_strlit("class ");
    reveal_strlit("if ");
    reveal_strlit("for ");
    reveal_strlit(" in ");
    match n {
        SpecAst::For { var, iter, body } => {
            let h = "for "@ + var + " in "@ + render(*iter, 0) + ":"@;
            lemma_lit_one_line("for "@);
            lemma_lit_one_line(" in "@);
            lemma_lit_one_line(":"@);
            lemma_one_line_concat("for "@, var);
            lemma_one_line_concat("for "@ + var, " in "@);
            lemma_one_line_concat("for "@ + var + " in "@, render(*iter, 0));
            lemma_one_line_concat("for "@ + var + " in "@ + render(*iter, 0), ":"@);
            lemma_shift_body(body, k + 1);
            lemma_shift_header(k, h, body_text(body, k + 1), body_text(body, k + 2), Seq::empty(), Seq::empty());
            assert(":\n"@ =~= ":"@ + "\n"@);
            assert(render(n, k) =~= ind(k) + h + "\n"@ + body_text(body, k + 1) + Seq::<char>::empty());
            assert(render(n, k + 1) =~= ind(k + 1) + h + "\n"@ + body_text(body, k + 2) + Seq::<char>::empty());
        },
        _ => {},
    }
}

proof fn lemma_shift_simple(n: SpecAst, k: nat)
    requires
        !(n is Def || n is Class || n is If || n is For),
        shiftable(n),
    ensures
        render(n, k + 1) == "    "@ + shift(render(n, k)),
{
    reveal(flat_text);
            let r0 = render(n, 0);
    assert(ind(0) =~= Seq::<char>::empty());
    assert(render(n, k) =~= ind(k) + r0);
    assert(render(n, k + 1) =~= ind(k + 1) + r0);
    lemma_ind_front(k);
    lemma_one_line_concat(ind(k), r0);
    lemma_shift_one_line(ind(k) + r0);
    assert(render(n, k + 1) =~= "    "@ + shift(render(n, k)));
}

/// A body one level deeper is the body shifted.
proof fn lemma_shift_body(body: Seq<SpecAst>, k: nat)
    requires
        all_true(shiftables(body)),
    ensures
        body_text(body, k + 1) == "    "@ + shift(body_text(body, k)),
    decreases body, 1int,
{
    if body.len() == 0 {
        reveal_strlit("pass");
        lemma_ind_front(k);
        lemma_lit_one_line("pass"@);
        lemma_one_line_concat(ind(k), "pass"@);
        lemma_shift_one_line(ind(k) + "pass"@);
        assert(body_text(body, k + 1) =~= "    "@ + shift(body_text(body, k)));
    } else {
        lemma_shift_lines(body, k);
    }
}

/// Statements joined by newlines, one level deeper, are the joined text shifted.
proof fn lemma_shift_lines(s: Seq<SpecAst>, k: nat)
    requires
        all_true(shiftables(s)),
        s.len() >= 1,
    ensures
        join(render_all(s, k + 1), "\n"@) == "    "@ + shift(join(render_all(s, k), "\n"@)),
    decreases s, 0int,
{
    let xs = render_all(s, k);
    let ys = render_all(s, k + 1);
    assert forall|i: int| 0 <= i < xs.len() implies #[trigger] ys[i] == "    "@ + shift(xs[i]) by {
        assert(shiftables(s)[i]);
        lemma_shift_render(s[i], k);
    }
    lemma_shift_join(xs, ys);
}

/// The `elif` / `else` part, one level deeper, is that part shifted.
proof fn lemma_shift_else(o: Seq<SpecAst>, k: nat)
    requires
        all_true(shiftables(o)),
    ensures
        else_chain(o, k + 1) == shift(else_chain(o, k)),
    decreases o, 2int,
{
    if o.len() == 0 {
        assert(shift(Seq::<char>::empty()) =~= Seq::<char>::empty());
    } else if o.len() == 1 && o[0] is If {
        lemma_shift_elif(o, k);
    } else {
        lemma_shift_else_block(o, k);
    }
}

/// A line break in front of a text shifts to a line break and four spaces.
proof fn lemma_nl_shift(x: Seq<char>, y: Seq<char>)
    requires
        y == "    "@ + shift(x),
    ensures
        "\n"@ + y == shift("\n"@ + x),
{
    reveal_strlit("\n");
    reveal_strlit("    ");
    reveal_strlit("\n    ");
    lemma_shift_concat("\n"@, x);
    assert(shift("\n"@) == "\n    "@) by {
        assert("\n"@.drop_last() =~= Seq::<char>::empty());
        reveal_with_fuel(shift, 2);
    }
    assert("\n"@ + y =~= "\n    "@ + shift(x));
}

proof fn lemma_regroup(a: Seq<char>, p: Seq<char>, c: Seq<char>, b: Seq<char>, t: Seq<char>)
    ensures
        "\n"@ + a + p + c + ":\n"@ + b + t == "\n"@ + (a + (p + c + ":"@) + "\n"@ + b + t),
{
    reveal_strlit(":\n");
    reveal_strlit(":");
    reveal_strlit("\n");
    assert("\n"@ + a + p + c + ":\n"@ + b + t =~= "\n"@ + (a + (p + c + ":"@) + "\n"@ + b + t));
}

/// A lone nested `if` written as `elif`, one level deeper, is that text shifted.
#[verifier::rlimit(30)]
proof fn lemma_shift_elif(o: Seq<SpecAst>, k: nat)
    requires
        all_true(shiftables(o)),
        o.len() == 1,
        o[0] is If,
    ensures
        else_chain(o, k + 1) == shift(else_chain(o, k)),
    decreases o, 1int,
{
    assert(shiftables(o)[0]);
    lemma_shiftable_parts(o[0]);
    match o[0] {
        SpecAst::If { cond, body, orelse: o2 } => {
            reveal(flat_cond);
            reveal_strlit(":");
            reveal_strlit("elif ");
            let c = cond_text(*cond);
            let h = "elif "@ + c + ":"@;
            lemma_lit_one_line("elif "@);
            lemma_lit_one_line(":"@);
            lemma_one_line_concat("elif "@, c);
            lemma_one_line_concat("elif "@ + c, ":"@);
            lemma_shift_body(body, k + 1);
            lemma_shift_else(o2, k);
            let b0 = body_text(body, k + 1);
            let b1 = body_text(body, k + 2);
            let t0 = else_chain(o2, k);
            let t1 = else_chain(o2, k + 1);
            lemma_shift_header(k, h, b0, b1, t0, t1);
            let x = ind(k) + h + "\n"@ + b0 + t0;
            let y = ind(k + 1) + h + "\n"@ + b1 + t1;
            lemma_nl_shift(x, y);
            lemma_regroup(ind(k), "elif "@, c, b0, t0);
            lemma_regroup(ind(k + 1), "elif "@, c, b1, t1);
            assert(else_chain(o, k) == "\n"@ + x);
            assert(else_chain(o, k + 1) == "\n"@ + y);
        },
        _ => {},
    }
}

/// An `else` block, one level deeper, is that text shifted.
#[verifier::rlimit(30)]
proof fn lemma_shift_else_block(o: Seq<SpecAst>, k: nat)
    requires
        all_true(shiftables(o)),
        o.len() > 0,
        !(o.len() == 1 && o[0] is If),
    ensures
        else_chain(o, k + 1) == shift(else_chain(o, k)),
    decreases o, 1int,
{
    reveal_strlit("else");
    reveal_strlit("else:");
    reveal_strlit("else:\n");
    reveal_strlit(":\n");
    reveal_strlit(":");
    let h = "else:"@;
    lemma_lit_one_line(h);
    lemma_shift_lines(o, k + 1);
    let b0 = join(render_all(o, k + 1), "\n"@);
    let b1 = join(render_all(o, k + 2), "\n"@);
    let e = Seq::<char>::empty();
    lemma_shift_header(k, h, b0, b1, e, e);
    assert(shift(e) =~= e);
    let x = ind(k) + h + "\n"@ + b0 + e;
    let y = ind(k + 1) + h + "\n"@ + b1 + e;
    lemma_nl_shift(x, y);
    assert("else:"@ =~= "else"@ + Seq::<char>::empty() + ":"@);
    assert("else:\n"@ =~= "else"@ + ":\n"@);
    lemma_regroup(ind(k), "else"@, e, b0, e);
    lemma_regroup(ind(k + 1), "else"@, e, b1, e);
    assert("\n"@ + ind(k) + "else:\n"@ + b0 =~= "\n"@ + ind(k) + "else"@ + e + ":\n"@ + b0 + e);
    assert("\n"@ + ind(k + 1) + "else:\n"@ + b1 =~= "\n"@ + ind(k + 1) + "else"@ + e + ":\n"@ + b1 + e);
    assert(else_chain(o, k) == "\n"@ + x);
    assert(else_chain(o, k + 1) == "\n"@ + y);
}

/// `n` levels of indentation as a string.
fn indent_text(n: usize) -> (s: String)
    ensures
        s@ == ind(n as nat),
{
    let mut s = String::new();
    let mut i: usize = 0;
    while i < n
        invariant
            i <= n,
            s@ == ind(i as nat),
        decreases n - i,
    {
        s.append("    ");
        i += 1;
    }
    s
}

/// One level of indentation more than `pad`.
fn deeper(pad: &String, Ghost(k): Ghost<nat>) -> (r: String)
    requires
        pad@ == ind(k),
    ensures
        r@ == ind(k + 1),
{
    let mut r = pad.clone();
    r.append("    ");
    r
}

/// Appends a string literal's text with its Chinese quotes made ASCII.
fn emit_quoted(s: &String, out: &mut String)
    ensures
        final(out)@ == old(out)@ + quotes_text(s@),
{
    let ghost o = out@;
    let v = chars_of(s.as_str());
    let mut i: usize = 0;
    while i < v.len()
        invariant
            i <= v@.len(),
            v@ == s@,
            out@ == o + quotes_text(v@.take(i as int)),
        decreases v@.len() - i,
    {
        let c = v[i];
        if c == '“' || c == '”' {
            push_char(out, '"');
        } else if c == '‘' || c == '’' {
            push_char(out, '\'');
        } else {
            push_char(out, c);
        }
        assert(quotes_text(v@.take(i + 1)) =~= quotes_text(v@.take(i as int)).push(ascii_quote(c)));
        i += 1;
    }
    assert(v@.take(v@.len() as int) =~= v@);
}

/// Appends texts joined by `sep`.
fn emit_strings(names: &Vec<String>, sep: &str, out: &mut String)
    ensures
        final(out)@ == old(out)@ + join(strings_view(names@), sep@),
{
    let ghost o = out@;
    let ghost ts = strings_view(names@);
    let mut i: usize = 0;
    while i < names.len()
        invariant
            i <= names@.len(),
            ts == strings_view(names@),
            out@ == o + join(ts.take(i as int), sep@),
        decreases names@.len() - i,
    {
        if i > 0 {
            out.append(sep);
        }
        out.append(names[i].as_str());
        proof {
            lemma_join_push(ts.take(i as int), ts[i as int], sep@);
            assert(ts.take(i + 1) =~= ts.take(i as int).push(ts[i as int]));
        }
        i += 1;
    }
    assert(ts.take(names@.len() as int) =~= ts);
}

/// Appends the parameter list of a `def` or `lambda`.
fn emit_params(params: &Vec<Parameter>, out: &mut String)
    ensures
        final(out)@ == old(out)@ + params_text(params_view(params@)),
{
    let ghost o = out@;
    let ghost ts = params_view(params@).map_values(|p: SpecParam| param_text(p));
    let mut i: usize = 0;
    while i < params.len()
        invariant
            i <= params@.len(),
            ts == params_view(params@).map_values(|p: SpecParam| param_text(p)),
            out@ == o + join(ts.take(i as int), ", "@),
        decreases params@.len() - i,
    {
        if i > 0 {
            out.append(", ");
        }
        match &params[i] {
            Parameter::Normal(n) => {
                out.append(n.as_str());
            },
            Parameter::Args(n) => {
                out.append("*");
                out.append(n.as_str());
            },
            Parameter::Kwargs(n) => {
                out.append("**");
                out.append(n.as_str());
            },
        }
        proof {
            lemma_join_push(ts.take(i as int), ts[i as int], ", "@);
            assert(ts.take(i + 1) =~= ts.take(i as int).push(ts[i as int]));
        }
        i += 1;
    }
    assert(ts.take(params@.len() as int) =~= ts);
}

/// Appends the names of a `from ... import` statement.
fn emit_import_names(names: &Vec<(String, Option<String>)>, out: &mut String)
    ensures
        final(out)@ == old(out)@ + join(
            import_names_view(names@).map_values(|x: (Seq<char>, Option<Seq<char>>)| import_name_text(x)),
            ", "@,
        ),
{
    let ghost o = out@;
    let ghost ts = import_names_view(names@).map_values(
        |x: (Seq<char>, Option<Seq<char>>)| import_name_text(x),
    );
    let mut i: usize = 0;
    while i < names.len()
        invariant
            i <= names@.len(),
            ts == import_names_view(names@).map_values(
                |x: (Seq<char>, Option<Seq<char>>)| import_name_text(x),
            ),
            out@ == o + join(ts.take(i as int), ", "@),
        decreases names@.len() - i,
    {
        if i > 0 {
            out.append(", ");
        }
        out.append(names[i].0.as_str());
        match &names[i].1 {
            Some(a) => {
                out.append(" as ");
                out.append(a.as_str());
            },
            None => {},
        }
        proof {
            lemma_join_push(ts.take(i as int), ts[i as int], ", "@);
            assert(ts.take(i + 1) =~= ts.take(i as int).push(ts[i as int]));
        }
        i += 1;
    }
    assert(ts.take(names@.len() as int) =~= ts);
}

/// Appends the texts of `items`, each at level `k`, joined by `sep`.
fn emit_nodes(items: &Vec<AstNode>, pad: &String, Ghost(k): Ghost<nat>, sep: &str, out: &mut String)
    requires
        pad@ == ind(k),
    ensures
        final(out)@ == old(out)@ + join(render_all(nodes_view(items@), k), sep@),
    decreases items, 0int,
{
    let ghost o = out@;
    let ghost ts = render_all(nodes_view(items@), k);
    let mut i: usize = 0;
    while i < items.len()
        invariant
            i <= items@.len(),
            pad@ == ind(k),
            ts == render_all(nodes_view(items@), k),
            out@ == o + join(ts.take(i as int), sep@),
        decreases items@.len() - i,
    {
        if i > 0 {
            out.append(sep);
        }
        proof {
            assert(decreases_to!(items => items@));
            assert(decreases_to!(items@ => items@[i as int]));
        }
        emit(&items[i], pad, Ghost(k), out);
        proof {
            lemma_join_push(ts.take(i as int), ts[i as int], sep@);
            assert(ts.take(i + 1) =~= ts.take(i as int).push(ts[i as int]));
        }
        i += 1;
    }
    assert(ts.take(items@.len() as int) =~= ts);
}

/// Appends the entries `key: value` of a dict display, joined by `, `.
fn emit_pairs(pairs: &Vec<(AstNode, AstNode)>, out: &mut String)
    ensures
        final(out)@ == old(out)@ + join(render_pairs(pairs_view(pairs@)), ", "@),
    decreases pairs, 0int,
{
    let ghost o = out@;
    let ghost ts = render_pairs(pairs_view(pairs@));
    let zero = String::new();
    let mut i: usize = 0;
    while i < pairs.len()
        invariant
            i <= pairs@.len(),
            zero@ == ind(0),
            ts == render_pairs(pairs_view(pairs@)),
            out@ == o + join(ts.take(i as int), ", "@),
        decreases pairs@.len() - i,
    {
        if i > 0 {
            out.append(", ");
        }
        proof {
            assert(decreases_to!(pairs => pairs@));
            assert(decreases_to!(pairs@ => pairs@[i as int]));
            assert(decreases_to!(pairs@[i as int] => pairs@[i as int].0));
            assert(decreases_to!(pairs@[i as int] => pairs@[i as int].1));
        }
        emit(&pairs[i].0, &zero, Ghost(0), out);
        out.append(": ");
        emit(&pairs[i].1, &zero, Ghost(0), out);
        proof {
            lemma_join_push(ts.take(i as int), ts[i as int], ", "@);
            assert(ts.take(i + 1) =~= ts.take(i as int).push(ts[i as int]));
        }
        i += 1;
    }
    assert(ts.take(pairs@.len() as int) =~= ts);
}

/// Appends a body at level `k`.
fn emit_body(body: &Vec<AstNode>, pad: &String, Ghost(k): Ghost<nat>, out: &mut String)
    requires
        pad@ == ind(k),
    ensures
        final(out)@ == old(out)@ + body_text(nodes_view(body@), k),
    decreases body, 1int,
{
    if body.len() == 0 {
        out.append(pad.as_str());
        out.append("pass");
    } else {
        emit_nodes(body, pad, Ghost(k), "\n", out);
    }
}

/// Appends the condition of an `if` or `elif`.
fn emit_cond(c: &AstNode, out: &mut String)
    ensures
        final(out)@ == old(out)@ + cond_text(c@),
    decreases c, 4int,
{
    let zero = String::new();
    proof {
        crate::ast::lemma_view_variant(*c);
    }
    match c {
        AstNode::Paren(inner) => emit(inner, &zero, Ghost(0), out),
        _ => emit(c, &zero, Ghost(0), out),
    }
}

/// Appends the `elif` / `else` part after an `if` body at level `k`.
fn emit_else(orelse: &Vec<AstNode>, pad: &String, Ghost(k): Ghost<nat>, out: &mut String)
    requires
        pad@ == ind(k),
    ensures
        final(out)@ == old(out)@ + else_chain(nodes_view(orelse@), k),
    decreases orelse, 1int,
{
    let ghost o = out@;
    let ghost ov = nodes_view(orelse@);
    if orelse.len() == 0 {
        assert(out@ =~= o + else_chain(ov, k));
        return;
    }
    proof {
        crate::ast::lemma_view_variant(orelse@[0]);
    }
    if orelse.len() == 1 {
        match &orelse[0] {
            AstNode::If { cond, body, orelse: rest } => {
                proof {
                    assert(decreases_to!(orelse => orelse@));
                    assert(decreases_to!(orelse@ => orelse@[0]));
                    assert(decreases_to!(orelse@[0] => *cond));
                }
                out.append("\n");
                out.append(pad.as_str());
                out.append("elif ");
                emit_cond(cond, out);
                out.append(":\n");
                let pad1 = deeper(pad, Ghost(k));
                emit_body(body, &pad1, Ghost(k + 1), out);
                emit_else(rest, pad, Ghost(k), out);
                assert(out@ =~= o + else_chain(ov, k));
                return;
            },
            _ => {},
        }
    }
    out.append("\n");
    out.append(pad.as_str());
    out.append("else:\n");
    let pad1 = deeper(pad, Ghost(k));
    emit_nodes(orelse, &pad1, Ghost(k + 1), "\n", out);
    assert(out@ =~= o + else_chain(ov, k));
}

/// Whether a node is written by `emit_stmt`: the statements and class instantiation, which
/// take the indentation of their level.
pub open spec fn is_stmt_node(n: AstNode) -> bool {
    n is Instance || n is Class || n is Program || n is Def || n is If || n is For || n is Return || n is Break || n is Continue || n is Pass || n is Assign || n is MultiAssign || n is AttributeAssign || n is IndexAssign
}

/// Appends the text of `node` at level `k`.
fn emit(node: &AstNode, pad: &String, Ghost(k): Ghost<nat>, out: &mut String)
    requires
        pad@ == ind(k),
    ensures
        final(out)@ == old(out)@ + render(node@, k),
    decreases node, 3int,
{
    if is_stmt(node) {
        emit_stmt(node, pad, Ghost(k), out);
    } else {
        emit_expr(node, pad, Ghost(k), out);
    }
}

/// Whether a node is one that `emit_stmt` writes.
fn is_stmt(node: &AstNode) -> (b: bool)
    ensures
        b == is_stmt_node(*node),
{
    match node {
        AstNode::Instance { .. } | AstNode::Class { .. } | AstNode::Program(..) | AstNode::Def { .. }
        | AstNode::If { .. } | AstNode::For { .. } | AstNode::Return(..) | AstNode::Break
        | AstNode::Continue | AstNode::Pass | AstNode::Assign { .. } | AstNode::MultiAssign { .. }
        | AstNode::AttributeAssign { .. } | AstNode::IndexAssign { .. } => true,
        _ => false,
    }
}

/// Appends a statement (or class instantiation) at level `k`.
#[verifier::spinoff_prover]
#[verifier::rlimit(60)]
fn emit_stmt(node: &AstNode, pad: &String, Ghost(k): Ghost<nat>, out: &mut String)
    requires
        pad@ == ind(k),
        is_stmt_node(*node),
    ensures
        final(out)@ == old(out)@ + render(node@, k),
    decreases node, 2int,
{
    let ghost o = out@;
    let zero = String::new();
    match node {
        AstNode::Instance { class, args } => {
            out.append(pad.as_str());
            out.append(class.as_str());
            out.append("(");
            emit_nodes(args, &zero, Ghost(0), ", ", out);
            out.append(")");
            assert(out@ =~= o + render(node@, k));
        },
        AstNode::Class { name, bases, body } => {
            out.append(pad.as_str());
            out.append("class ");
            out.append(name.as_str());
            if bases.len() > 0 {
                out.append("(");
                emit_strings(bases, ", ", out);
                out.append(")");
            }
            out.append(":\n");
            let pad1 = deeper(pad, Ghost(k));
            emit_body(body, &pad1, Ghost(k + 1), out);
            assert(out@ =~= o + render(node@, k));
        },
        AstNode::Program(stmts) => {
            emit_nodes(stmts, pad, Ghost(k), "\n", out);
            assert(out@ =~= o + render(node@, k));
        },
        AstNode::Def { name, params, body } => {
            out.append(pad.as_str());
            out.append("def ");
            out.append(name.as_str());
            out.append("(");
            emit_params(params, out);
            out.append("):\n");
            let pad1 = deeper(pad, Ghost(k));
            emit_body(body, &pad1, Ghost(k + 1), out);
            assert(out@ =~= o + render(node@, k));
        },
        AstNode::If { cond, body, orelse } => {
            out.append(pad.as_str());
            out.append("if ");
            emit_cond(cond, out);
            out.append(":\n");
            let pad1 = deeper(pad, Ghost(k));
            emit_body(body, &pad1, Ghost(k + 1), out);
            emit_else(orelse, pad, Ghost(k), out);
            assert(out@ =~= o + render(node@, k));
        },
        AstNode::For { var, iter, body } => {
            out.append(pad.as_str());
            out.append("for ");
            out.append(var.as_str());
            out.append(" in ");
            emit(iter, &zero, Ghost(0), out);
            out.append(":\n");
            let pad1 = deeper(pad, Ghost(k));
            emit_body(body, &pad1, Ghost(k + 1), out);
            assert(out@ =~= o + render(node@, k));
        },
        AstNode::Return(v) => {
            out.append(pad.as_str());
            match v {
                Some(e) => {
                    out.append("return ");
                    emit(e, &zero, Ghost(0), out);
                },
                None => {
                    out.append("return");
                },
            }
            assert(out@ =~= o + render(node@, k));
        },
        AstNode::Break => {
            out.append(pad.as_str());
            out.append("break");
            assert(out@ =~= o + render(node@, k));
        },
        AstNode::Continue => {
            out.append(pad.as_str());
            out.append("continue");
            assert(out@ =~= o + render(node@, k));
        },
        AstNode::Pass => {
            out.append(pad.as_str());
            out.append("pass");
            assert(out@ =~= o + render(node@, k));
        },
        AstNode::Assign { name, value } => {
            out.append(pad.as_str());
            out.append(name.as_str());
            out.append(" = ");
            emit(value, &zero, Ghost(0), out);
            assert(out@ =~= o + render(node@, k));
        },
        AstNode::MultiAssign { names, values } => {
            out.append(pad.as_str());
            emit_strings(names, ", ", out);
            out.append(" = ");
            emit_nodes(values, &zero, Ghost(0), ", ", out);
            assert(out@ =~= o + render(node@, k));
        },
        AstNode::IndexAssign { object, index, value } => {
            out.append(pad.as_str());
            emit(object, &zero, Ghost(0), out);
            out.append("[");
            emit(index, &zero, Ghost(0), out);
            out.append("] = ");
            emit(value, &zero, Ghost(0), out);
            assert(out@ =~= o + render(node@, k));
        },
        AstNode::AttributeAssign { object, attr, value } => {
            out.append(pad.as_str());
            emit(object, &zero, Ghost(0), out);
            out.append(".");
            out.append(attr.as_str());
            out.append(" = ");
            emit(value, &zero, Ghost(0), out);
            assert(out@ =~= o + render(node@, k));
        },
        _ => {},
    }
    assert(out@ =~= o + render(node@, k));
}

/// Appends an expression (or import) at level `k`.
#[verifier::spinoff_prover]
#[verifier::rlimit(60)]
fn emit_expr(node: &AstNode, pad: &String, Ghost(k): Ghost<nat>, out: &mut String)
    requires
        pad@ == ind(k),
        !is_stmt_node(*node),
    ensures
        final(out)@ == old(out)@ + render(node@, k),
    decreases node, 2int,
{
    let ghost o = out@;
    let zero = String::new();
    match node {
        AstNode::BinaryOp { left, op, right } => {
            emit_binary(node, out);
            assert(out@ =~= o + render(node@, k));
        },
        AstNode::Paren(inner) => {
            out.append("(");
            emit(inner, &zero, Ghost(0), out);
            out.append(")");
            assert(out@ =~= o + render(node@, k));
        },
        AstNode::UnaryOp { op, expr } => {
            out.append("(");
            out.append(op.as_str());
            out.append(" ");
            emit(expr, &zero, Ghost(0), out);
            out.append(")");
            assert(out@ =~= o + render(node@, k));
        },
        AstNode::Identifier(name) => {
            out.append(name.as_str());
            assert(out@ =~= o + render(node@, k));
        },
        AstNode::Integer(v) => {
            push_i64_text(out, *v);
            assert(out@ =~= o + render(node@, k));
        },
        AstNode::Float(f) => {
            out.append(f.as_str());
            assert(out@ =~= o + render(node@, k));
        },
        AstNode::String(t) => {
            emit_quoted(t, out);
            assert(out@ =~= o + render(node@, k));
        },
        AstNode::Bool(b) => {
            if *b {
                out.append("True");
            } else {
                out.append("False");
            }
            assert(out@ =~= o + render(node@, k));
        },
        AstNode::NoneLiteral => {
            out.append("None");
            assert(out@ =~= o + render(node@, k));
        },
        AstNode::List(items) => {
            out.append("[");
            emit_nodes(items, &zero, Ghost(0), ", ", out);
            out.append("]");
            assert(out@ =~= o + render(node@, k));
        },
        AstNode::Tuple(items) => {
            out.append("(");
            emit_nodes(items, &zero, Ghost(0), ", ", out);
            if items.len() == 1 {
                out.append(",)");
            } else {
                out.append(")");
            }
            assert(out@ =~= o + render(node@, k));
        },
        AstNode::SetLiteral(items) => {
            out.append("{");
            emit_nodes(items, &zero, Ghost(0), ", ", out);
            out.append("}");
            assert(out@ =~= o + render(node@, k));
        },
        AstNode::Dict(pairs) => {
            out.append("{");
            emit_pairs(pairs, out);
            out.append("}");
            assert(out@ =~= o + render(node@, k));
        },
        AstNode::Call { func, args } => {
            emit_call(node, pad, Ghost(k), out);
            assert(out@ =~= o + render(node@, k));
        },
        AstNode::Range { start, end, step } => {
            emit(start, &zero, Ghost(0), out);
            out.append(":");
            emit(end, &zero, Ghost(0), out);
            match step {
                Some(e) => {
                    out.append(":");
                    emit(e, &zero, Ghost(0), out);
                },
                None => {},
            }
            assert(out@ =~= o + render(node@, k));
        },
        AstNode::Index { value, index } => {
            emit(value, &zero, Ghost(0), out);
            out.append("[");
            emit(index, &zero, Ghost(0), out);
            out.append("]");
            assert(out@ =~= o + render(node@, k));
        },
        AstNode::Slice { value, start, end, step } => {
            emit(value, &zero, Ghost(0), out);
            out.append("[");
            match start {
                Some(e) => emit(e, &zero, Ghost(0), out),
                None => {},
            }
            out.append(":");
            match end {
                Some(e) => emit(e, &zero, Ghost(0), out),
                None => {},
            }
            match step {
                Some(e) => {
                    out.append(":");
                    emit(e, &zero, Ghost(0), out);
                },
                None => {},
            }
            out.append("]");
            assert(out@ =~= o + render(node@, k));
        },
        AstNode::Attribute { value, attr } => {
            emit(value, &zero, Ghost(0), out);
            out.append(".");
            out.append(attr.as_str());
            assert(out@ =~= o + render(node@, k));
        },
        AstNode::Import { module, alias } => {
            out.append("import ");
            out.append(module.as_str());
            match alias {
                Some(a) => {
                    out.append(" as ");
                    out.append(a.as_str());
                },
                None => {},
            }
            assert(out@ =~= o + render(node@, k));
        },
        AstNode::ImportFrom { module, names } => {
            out.append("from ");
            out.append(module.as_str());
            out.append(" import ");
            emit_import_names(names, out);
            assert(out@ =~= o + render(node@, k));
        },
        AstNode::Lambda { params, body } => {
            out.append("lambda ");
            emit_params(params, out);
            out.append(": ");
            emit(body, &zero, Ghost(0), out);
            assert(out@ =~= o + render(node@, k));
        },
        _ => {},
    }
    assert(out@ =~= o + render(node@, k));
}

/// Appends a binary operation; `print(f) % x` is written `print(f % x)`.
fn emit_binary(node: &AstNode, out: &mut String)
    requires
        node is BinaryOp,
    ensures
        final(out)@ == old(out)@ + render(node@, 0),
    decreases node, 1int,
{
    let ghost o = out@;
    let zero = String::new();
    match node {
        AstNode::BinaryOp { left, op, right } => {
            proof {
                crate::ast::lemma_view_variant(**left);
            }
            match &**left {
                AstNode::Call { func, args } => {
                    proof {
                        assert(node_view(**left) == SpecAst::Call {
                            func: Box::new(node_view(**func)),
                            args: nodes_view(args@),
                        });
                    }
                    let mut f = String::new();
                    emit(func, &zero, Ghost(0), &mut f);
                    if is_text(&f, "print") && args.len() == 1 {
                        proof {
                            assert(decreases_to!(args => args@));
                            assert(decreases_to!(args@ => args@[0]));
                        }
                        out.append("print(");
                        emit(&args[0], &zero, Ghost(0), out);
                        out.append(" % ");
                        emit(right, &zero, Ghost(0), out);
                        out.append(")");
                        assert(out@ =~= o + render(node@, 0));
                        return;
                    }
                },
                _ => {},
            }
            emit(left, &zero, Ghost(0), out);
            out.append(" ");
            out.append(op.as_str());
            out.append(" ");
            emit(right, &zero, Ghost(0), out);
            assert(out@ =~= o + render(node@, 0));
        },
        _ => {},
    }
}

/// Appends a call at level `k`; `print(f % x)` keeps its form.
fn emit_call(node: &AstNode, pad: &String, Ghost(k): Ghost<nat>, out: &mut String)
    requires
        pad@ == ind(k),
        node is Call,
    ensures
        final(out)@ == old(out)@ + render(node@, k),
    decreases node, 1int,
{
    let ghost o = out@;
    let zero = String::new();
    match node {
        AstNode::Call { func, args } => {
            let mut f = String::new();
            emit(func, &zero, Ghost(0), &mut f);
            if is_text(&f, "print") && args.len() == 1 {
                proof {
                    crate::ast::lemma_view_variant(args@[0]);
                    assert(nodes_view(args@)[0] == node_view(args@[0]));
                    assert(decreases_to!(args => args@));
                    assert(decreases_to!(args@ => args@[0]));
                }
                match &args[0] {
                    AstNode::BinaryOp { left, op, right } => {
                        proof {
                            assert(node_view(args@[0]) == SpecAst::BinaryOp {
                                left: Box::new(node_view(**left)),
                                op: op@,
                                right: Box::new(node_view(**right)),
                            });
                        }
                        if is_text(op, "%") {
                            out.append(pad.as_str());
                            out.append("print(");
                            emit(left, &zero, Ghost(0), out);
                            out.append(" % ");
                            emit(right, &zero, Ghost(0), out);
                            out.append(")");
                            assert(out@ =~= o + render(node@, k));
                            return;
                        }
                    },
                    _ => {},
                }
            }
            out.append(pad.as_str());
            out.append(f.as_str());
            out.append("(");
            emit_nodes(args, &zero, Ghost(0), ", ", out);
            out.append(")");
            assert(out@ =~= o + render(node@, k));
        },
        _ => {},
    }
}

/// The Python source text of `node`, with statements indented by `indent` levels of four
/// spaces.
pub fn ast_to_python(node: &AstNode, indent: usize) -> (s: String)
    ensures
        s@ == render(node@, indent as nat),
{
    let pad = indent_text(indent);
    let mut s = String::new();
    emit(node, &pad, Ghost(indent as nat), &mut s);
    s
}


/// A subscript is written as its value, `[`, its index and `]`, at any level.
pub proof fn lemma_index_is_written_with_brackets(value: SpecAst, index: SpecAst, k: nat)
    ensures
        render(SpecAst::Index { value: Box::new(value), index: Box::new(index) }, k) == render(value, 0) + "["@
            + render(index, 0) + "]"@,
{
}

} // verus!
